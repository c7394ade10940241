//! The pool: a registry of work queues, one per worker.
//!
//! The registry is fixed when the pool is built. Every task is submitted to
//! one queue, the entry queue, and reaches the workers that do not own that
//! queue by stealing only.

use crate::queue::WorkQueue;
use crate::worker::{is_peer, Action, Event, Target, Worker, WorkerState};
use vstd::prelude::*;

verus! {

/// The registry position of the queue that every submitted task enters.
pub const ENTRY_QUEUE: usize = 0;

/// A registry in which every one of `count` queues is empty.
pub open spec fn fresh_pool<T>(count: int) -> Seq<Seq<T>> {
    Seq::new(count as nat, |i: int| Seq::<T>::empty())
}

/// Whether the worker at `me` can steal from the queue at `i`: it is a peer's
/// queue and holds a task.
pub open spec fn is_victim<T>(queues: Seq<Seq<T>>, me: int, i: int) -> bool {
    is_peer(me, queues.len() as int, i) && queues[i].len() > 0
}

/// Whether `i` is the first queue, in registry order, that the worker at `me`
/// can steal from.
pub open spec fn is_first_victim<T>(queues: Seq<Seq<T>>, me: int, i: int) -> bool {
    is_victim(queues, me, i) && forall|j: int| 0 <= j < i ==> !is_victim(queues, me, j)
}

/// Whether there is a queue that the worker at `me` can steal from.
pub open spec fn has_victim<T>(queues: Seq<Seq<T>>, me: int) -> bool {
    exists|i: int| is_victim(queues, me, i)
}

/// The first queue, in registry order, that the worker at `me` can steal from.
pub open spec fn first_victim<T>(queues: Seq<Seq<T>>, me: int) -> int {
    choose|i: int| is_first_victim(queues, me, i)
}

/// The registry after `task` has been submitted: it is the newest task of
/// the entry queue.
pub open spec fn pool_enqueue<T>(queues: Seq<Seq<T>>, task: T) -> Seq<Seq<T>> {
    queues.update(ENTRY_QUEUE as int, queues[ENTRY_QUEUE as int].push(task))
}

/// The registry after the owner of queue `me` asked it for a task, and the
/// task it got: the newest one.
pub open spec fn pool_pop_local<T>(queues: Seq<Seq<T>>, me: int) -> (Seq<Seq<T>>, Option<T>) {
    if queues[me].len() > 0 {
        (queues.update(me, queues[me].drop_last()), Some(queues[me].last()))
    } else {
        (queues, None)
    }
}

/// The registry after a thief asked queue `victim` for a task, and the task
/// it got: the oldest one.
pub open spec fn pool_steal<T>(queues: Seq<Seq<T>>, victim: int) -> (Seq<Seq<T>>, Option<T>) {
    if queues[victim].len() > 0 {
        (queues.update(victim, queues[victim].drop_first()), Some(queues[victim].first()))
    } else {
        (queues, None)
    }
}

/// The registry after the worker at `me` went once through its scheduling
/// loop, and the task it came out with.
///
/// The worker takes the newest task of its own queue. If that queue is empty
/// it takes the oldest task of the first peer, in registry order, that has
/// one. If every queue is empty it gets nothing and the registry is as it
/// was.
pub open spec fn pool_next_task<T>(queues: Seq<Seq<T>>, me: int) -> (Seq<Seq<T>>, Option<T>) {
    if queues[me].len() > 0 {
        pool_pop_local(queues, me)
    } else if has_victim(queues, me) {
        pool_steal(queues, first_victim(queues, me))
    } else {
        (queues, None)
    }
}

proof fn lemma_first_victim_from<T>(queues: Seq<Seq<T>>, me: int, k: int, witness: int)
    requires
        0 <= k <= witness,
        is_victim(queues, me, witness),
        forall|j: int| 0 <= j < k ==> !is_victim(queues, me, j),
    ensures
        exists|v: int| is_first_victim(queues, me, v),
    decreases witness - k,
{
    if is_victim(queues, me, k) {
        assert(is_first_victim(queues, me, k));
    } else {
        lemma_first_victim_from(queues, me, k + 1, witness);
    }
}

/// Where a worker has a peer to steal from, the peer it steals from is the
/// first such peer in registry order.
pub proof fn lemma_first_victim<T>(queues: Seq<Seq<T>>, me: int)
    requires
        has_victim(queues, me),
    ensures
        is_first_victim(queues, me, first_victim(queues, me)),
{
    let witness = choose|i: int| is_victim(queues, me, i);
    lemma_first_victim_from(queues, me, 0, witness);
}

/// Why a pool could not be built.
#[derive(Clone, Copy, Debug, PartialEq, Eq, Structural)]
pub enum SchedulerError {
    /// A pool needs at least one worker.
    NoWorkers,
}

/// The queues of a pool of workers.
pub struct Scheduler<T> {
    queues: Vec<WorkQueue<T>>,
}

impl<T> View for Scheduler<T> {
    type V = Seq<Seq<T>>;

    closed spec fn view(&self) -> Seq<Seq<T>> {
        Seq::new(self.queues@.len(), |i: int| self.queues@[i]@)
    }
}

impl<T> Scheduler<T> {
    #[verifier::type_invariant]
    spec fn has_a_worker(self) -> bool {
        self.queues@.len() >= 1
    }

    /// Builds the registry for `num_threads` workers, one empty queue each.
    /// A pool without workers is refused.
    pub fn new(num_threads: usize) -> (pool: Result<Scheduler<T>, SchedulerError>)
        ensures
            num_threads == 0 ==> pool == Err::<Scheduler<T>, SchedulerError>(
                SchedulerError::NoWorkers,
            ),
            num_threads >= 1 ==> pool is Ok && pool->Ok_0@ == fresh_pool::<T>(num_threads as int),
    {
        if num_threads == 0 {
            return Err(SchedulerError::NoWorkers);
        }
        let mut queues: Vec<WorkQueue<T>> = Vec::new();
        let mut made: usize = 0;
        while made < num_threads
            invariant
                made <= num_threads,
                queues@.len() == made,
                forall|i: int| 0 <= i < made ==> (#[trigger] queues@[i])@ == Seq::<T>::empty(),
            decreases num_threads - made,
        {
            queues.push(WorkQueue::new());
            made = made + 1;
        }
        let pool = Scheduler { queues };
        assert(pool@ =~= fresh_pool::<T>(num_threads as int));
        Ok(pool)
    }

    /// The number of workers, which is the number of queues.
    pub fn worker_count(&self) -> (count: usize)
        ensures
            count == self@.len(),
            count >= 1,
    {
        proof {
            use_type_invariant(self);
        }
        self.queues.len()
    }

    /// The number of tasks waiting in the queue at position `worker`.
    pub fn queue_len(&self, worker: usize) -> (n: usize)
        requires
            worker < self@.len(),
        ensures
            n == self@[worker as int].len(),
    {
        self.queues[worker].len()
    }

    /// Submits a task: it becomes the newest task of the entry queue, whoever
    /// submits it.
    pub fn enqueue(&mut self, task: T)
        ensures
            final(self)@ == pool_enqueue(old(self)@, task),
    {
        proof {
            use_type_invariant(&*self);
        }
        self.queues[ENTRY_QUEUE].push_back(task);
        assert(self@ =~= pool_enqueue(old(self)@, task));
    }

    /// The owner's move: takes the newest task of the queue at position `me`.
    pub fn pop_local(&mut self, me: usize) -> (task: Option<T>)
        requires
            me < old(self)@.len(),
        ensures
            (final(self)@, task) == pool_pop_local(old(self)@, me as int),
    {
        let task = self.queues[me].pop_back();
        assert(self@ =~= pool_pop_local(old(self)@, me as int).0);
        task
    }

    /// A thief's move: takes the oldest task of the queue at position
    /// `victim`.
    pub fn steal_from(&mut self, victim: usize) -> (task: Option<T>)
        requires
            victim < old(self)@.len(),
        ensures
            (final(self)@, task) == pool_steal(old(self)@, victim as int),
    {
        let task = self.queues[victim].pop_front();
        assert(self@ =~= pool_steal(old(self)@, victim as int).0);
        task
    }

    /// Hands out the queues in registry order, for a pool that guards each
    /// queue by a lock of its own.
    pub fn into_queues(self) -> (queues: Vec<WorkQueue<T>>)
        ensures
            queues@.len() == self@.len(),
            queues@.len() >= 1,
            forall|i: int| 0 <= i < queues@.len() ==> (#[trigger] queues@[i])@ == self@[i],
    {
        proof {
            use_type_invariant(&self);
        }
        self.queues
    }

    /// One pass of the worker at `me` through its scheduling loop: its own
    /// queue first, then its peers in registry order. Returns the task to run,
    /// or nothing where the worker has to park.
    pub fn next_task(&mut self, me: usize) -> (task: Option<T>)
        requires
            me < old(self)@.len(),
        ensures
            (final(self)@, task) == pool_next_task(old(self)@, me as int),
    {
        let ghost before = self@;
        let mut worker = Worker::new(me, self.queues.len());
        let mut action: Action<T> = Action::PopLocal;
        loop
            invariant
                me < before.len(),
                before == old(self)@,
                worker@.me == me,
                worker@.count == before.len(),
                worker@.wf(),
                match action {
                    Action::PopLocal => {
                        &&& self@ == before
                        &&& worker@.state == (WorkerState::Stealing { asked: Target::Own })
                    },
                    Action::TrySteal(p) => {
                        &&& self@ == before
                        &&& worker@.state == (WorkerState::Stealing { asked: Target::Peer(p) })
                        &&& before[me as int].len() == 0
                        &&& forall|j: int| 0 <= j < p ==> !is_victim(before, me as int, j)
                    },
                    Action::Run(t) => (self@, Some(t)) == pool_next_task(before, me as int),
                    Action::Park => (self@, None::<T>) == pool_next_task(before, me as int),
                },
            decreases
                match action {
                    Action::PopLocal => before.len() + 1,
                    Action::TrySteal(p) => (before.len() - p) as nat,
                    _ => 0,
                },
        {
            let found = match action {
                Action::PopLocal => self.pop_local(me),
                Action::TrySteal(p) => {
                    let stolen = self.steal_from(p);
                    proof {
                        if stolen is Some {
                            assert(is_first_victim(before, me as int, p as int));
                            assert(first_victim(before, me as int) == p);
                        }
                    }
                    stolen
                },
                Action::Run(t) => {
                    return Some(t);
                },
                Action::Park => {
                    return None;
                },
            };
            action = worker.step(Event::answer(found));
        }
    }
}

} // verus!
