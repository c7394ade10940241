//! The scheduling decisions of one worker.
//!
//! A worker alternates between asking queues for a task, running a task and
//! parking. The asking, running and parking are done by whoever drives the
//! worker; what to do next is decided here, by [`Worker::step`].

use vstd::prelude::*;

verus! {

/// The queue that a searching worker has asked for a task.
#[derive(Clone, Copy, Debug, PartialEq, Eq, Structural)]
pub enum Target {
    /// The worker's own queue, asked for its newest task.
    Own,
    /// The peer queue at this registry position, asked for its oldest task.
    Peer(usize),
}

/// Where a worker stands in its scheduling loop.
#[derive(Clone, Copy, Debug, PartialEq, Eq, Structural)]
pub enum WorkerState {
    /// Looking for a task; `asked` is the queue whose answer is awaited.
    Stealing { asked: Target },
    /// Running a task.
    ExecutingLocal,
    /// Parked on the own queue until work is signalled.
    Idle,
}

/// What the driver of a worker has to do next.
#[derive(Debug, PartialEq, Eq)]
pub enum Action<T> {
    /// Take the newest task of the worker's own queue. This is also what a
    /// new worker does first.
    PopLocal,
    /// Try, without blocking, to take the oldest task of the peer queue at
    /// this registry position.
    TrySteal(usize),
    /// Run the task held here to completion.
    Run(T),
    /// Check once more that the own queue is empty and, if it is, wait on it
    /// until signalled.
    Park,
}

/// What the driver reports back after performing an [`Action`].
#[derive(Debug, PartialEq, Eq)]
pub enum Event<T> {
    /// The queue that was asked handed over the task held here.
    Found(T),
    /// The queue that was asked had no task to give: it was empty, or a peer
    /// was busy with it.
    Empty,
    /// The task that was run has ended.
    Finished,
    /// The wait on the own queue has ended.
    Woken,
}

impl<T> Event<T> {
    /// The event that reports what a queue answered when asked for a task.
    pub fn answer(found: Option<T>) -> (event: Event<T>)
        ensures
            event == match found {
                Some(task) => Event::Found(task),
                None => Event::Empty,
            },
    {
        match found {
            Some(task) => Event::Found(task),
            None => Event::Empty,
        }
    }
}

/// Whether `i` is the registry position of a peer of the worker at `me`, in a
/// registry of `count` queues.
pub open spec fn is_peer(me: int, count: int, i: int) -> bool {
    0 <= i < count && i != me
}

/// The first peer at or after position `from`, in registry order.
pub open spec fn peer_from(me: int, count: int, from: int) -> Option<int> {
    let candidate = if from == me {
        from + 1
    } else {
        from
    };
    if candidate < count {
        Some(candidate)
    } else {
        None
    }
}

/// The position from which the scan goes on after `asked` gave nothing.
pub open spec fn scan_resumes(asked: Target) -> int {
    match asked {
        Target::Own => 0,
        Target::Peer(p) => p + 1,
    }
}

/// The mathematical model of a [`Worker`].
pub struct WorkerModel {
    /// The registry position of the worker's own queue.
    pub me: int,
    /// The number of queues in the registry.
    pub count: int,
    /// Where the worker stands in its loop.
    pub state: WorkerState,
}

impl WorkerModel {
    /// A worker has a queue of its own in a registry that a machine can
    /// hold, and a peer it asked is a peer.
    pub open spec fn wf(self) -> bool {
        &&& 0 <= self.me < self.count <= usize::MAX
        &&& self.state matches WorkerState::Stealing { asked: Target::Peer(p) } ==> is_peer(
            self.me,
            self.count,
            p as int,
        )
    }

    /// A worker that has just been bound to its queue.
    pub open spec fn initial(me: int, count: int) -> WorkerModel {
        WorkerModel { me, count, state: WorkerState::Stealing { asked: Target::Own } }
    }

    /// The state a worker moves to on `event`, and what its driver does next.
    ///
    /// A task that was found is run, whatever the worker was doing. A worker
    /// whose search came back empty asks the next peer in registry order, or
    /// parks once every peer has been asked. Every other event sends the
    /// worker back to its own queue.
    pub open spec fn step<T>(self, event: Event<T>) -> (WorkerState, Action<T>) {
        match event {
            Event::Found(task) => (WorkerState::ExecutingLocal, Action::Run(task)),
            Event::Empty => match self.state {
                WorkerState::Stealing { asked } => match peer_from(
                    self.me,
                    self.count,
                    scan_resumes(asked),
                ) {
                    Some(p) => (
                        WorkerState::Stealing { asked: Target::Peer(p as usize) },
                        Action::TrySteal(p as usize),
                    ),
                    None => (WorkerState::Idle, Action::Park),
                },
                _ => (WorkerState::Stealing { asked: Target::Own }, Action::PopLocal),
            },
            Event::Finished | Event::Woken => (
                WorkerState::Stealing { asked: Target::Own },
                Action::PopLocal,
            ),
        }
    }
}

/// `peer_from` gives the least peer position that is not below `from`, and
/// gives none only where there is no such peer.
pub proof fn lemma_peer_from_is_least(me: int, count: int, from: int)
    requires
        0 <= from,
    ensures
        match peer_from(me, count, from) {
            Some(p) => {
                &&& from <= p
                &&& is_peer(me, count, p)
                &&& forall|i: int| from <= i < p ==> !is_peer(me, count, i)
            },
            None => forall|i: int| from <= i ==> !is_peer(me, count, i),
        },
{
}

/// The first peer at or after position `from`, in registry order.
pub fn next_peer(me: usize, count: usize, from: usize) -> (peer: Option<usize>)
    ensures
        match peer {
            Some(p) => peer_from(me as int, count as int, from as int) == Some(p as int),
            None => peer_from(me as int, count as int, from as int) is None,
        },
{
    if from >= count {
        return None;
    }
    let candidate: usize = if from == me {
        from + 1
    } else {
        from
    };
    if candidate < count {
        Some(candidate)
    } else {
        None
    }
}

/// A worker bound to the queue at one registry position.
pub struct Worker {
    me: usize,
    count: usize,
    state: WorkerState,
}

impl View for Worker {
    type V = WorkerModel;

    closed spec fn view(&self) -> WorkerModel {
        WorkerModel { me: self.me as int, count: self.count as int, state: self.state }
    }
}

impl Worker {
    #[verifier::type_invariant]
    spec fn well_formed(self) -> bool {
        self@.wf()
    }

    /// Binds a worker to the queue at position `me` of a registry of `count`
    /// queues. Its first action is to take from its own queue.
    pub fn new(me: usize, count: usize) -> (worker: Worker)
        requires
            me < count,
        ensures
            worker@ == WorkerModel::initial(me as int, count as int),
            worker@.wf(),
    {
        Worker { me, count, state: WorkerState::Stealing { asked: Target::Own } }
    }

    /// The registry position of the worker's own queue.
    pub fn me(&self) -> (me: usize)
        ensures
            me == self@.me,
            self@.wf(),
    {
        proof {
            use_type_invariant(self);
        }
        self.me
    }

    /// The number of queues in the registry the worker scans.
    pub fn count(&self) -> (count: usize)
        ensures
            count == self@.count,
    {
        self.count
    }

    /// Where the worker stands in its loop.
    pub fn state(&self) -> (state: WorkerState)
        ensures
            state == self@.state,
    {
        self.state
    }

    /// Takes in what the driver reports and decides what it does next.
    pub fn step<T>(&mut self, event: Event<T>) -> (action: Action<T>)
        ensures
            final(self)@.me == old(self)@.me,
            final(self)@.count == old(self)@.count,
            final(self)@.wf(),
            (final(self)@.state, action) == old(self)@.step(event),
    {
        proof {
            use_type_invariant(&*self);
        }
        match event {
            Event::Found(task) => {
                self.state = WorkerState::ExecutingLocal;
                Action::Run(task)
            },
            Event::Empty => match self.state {
                WorkerState::Stealing { asked } => {
                    let from: usize = match asked {
                        Target::Own => 0,
                        Target::Peer(p) => p + 1,
                    };
                    match next_peer(self.me, self.count, from) {
                        Some(p) => {
                            self.state = WorkerState::Stealing { asked: Target::Peer(p) };
                            Action::TrySteal(p)
                        },
                        None => {
                            self.state = WorkerState::Idle;
                            Action::Park
                        },
                    }
                },
                _ => {
                    self.state = WorkerState::Stealing { asked: Target::Own };
                    Action::PopLocal
                },
            },
            Event::Finished | Event::Woken => {
                self.state = WorkerState::Stealing { asked: Target::Own };
                Action::PopLocal
            },
        }
    }
}

} // verus!
