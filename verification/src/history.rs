//! Histories of a pool, and what holds of every one of them.
//!
//! A history is a sequence of moves: a task is submitted, or a worker goes
//! once through its scheduling loop and runs what it comes out with. The
//! proof functions of this module speak of all histories, whatever the order
//! in which submitters and workers take their turns.

use crate::scheduler::{
    first_victim, fresh_pool, has_victim, is_victim, lemma_first_victim, pool_enqueue,
    pool_next_task, pool_pop_local, pool_steal, ENTRY_QUEUE,
};
use crate::worker::{
    is_peer, lemma_peer_from_is_least, scan_resumes, Action, Event, Target, WorkerModel,
    WorkerState,
};
use vstd::multiset::Multiset;
use vstd::prelude::*;

verus! {

/// One move in the life of a pool.
pub enum Move<T> {
    /// The task held here is submitted.
    Submit(T),
    /// The worker at this registry position goes once through its scheduling
    /// loop and runs the task it comes out with, if any.
    Work(int),
}

/// A pool together with the record of what was submitted to it and what its
/// workers ran, each in the order in which it happened.
pub struct History<T> {
    /// The queues of the pool.
    pub queues: Seq<Seq<T>>,
    /// The tasks submitted so far.
    pub submitted: Seq<T>,
    /// The tasks run so far.
    pub executed: Seq<T>,
}

/// The tasks that wait in the queues of a pool, as a multiset.
pub open spec fn pending<T>(queues: Seq<Seq<T>>) -> Multiset<T>
    decreases queues.len(),
{
    if queues.len() == 0 {
        Multiset::empty()
    } else {
        pending(queues.drop_last()).add(queues.last().to_multiset())
    }
}

/// Whether every queue of the pool is empty.
pub open spec fn all_empty<T>(queues: Seq<Seq<T>>) -> bool {
    forall|i: int| 0 <= i < queues.len() ==> (#[trigger] queues[i]).len() == 0
}

/// The history of a new pool of `count` workers.
pub open spec fn beginning<T>(count: int) -> History<T> {
    History { queues: fresh_pool(count), submitted: Seq::empty(), executed: Seq::empty() }
}

/// The history after one more move. A move of a worker that the pool does not
/// have changes nothing.
pub open spec fn advance<T>(h: History<T>, m: Move<T>) -> History<T> {
    match m {
        Move::Submit(task) => History {
            queues: pool_enqueue(h.queues, task),
            submitted: h.submitted.push(task),
            executed: h.executed,
        },
        Move::Work(me) => if 0 <= me < h.queues.len() {
            let (queues, task) = pool_next_task(h.queues, me);
            match task {
                Some(t) => History { queues, submitted: h.submitted, executed: h.executed.push(t) },
                None => h,
            }
        } else {
            h
        },
    }
}

/// The history of a new pool of `count` workers after `moves`.
pub open spec fn replay<T>(count: int, moves: Seq<Move<T>>) -> History<T>
    decreases moves.len(),
{
    if moves.len() == 0 {
        beginning(count)
    } else {
        advance(replay(count, moves.drop_last()), moves.last())
    }
}

/// Whether no move of `moves` submits a task.
pub open spec fn submits_nothing<T>(moves: Seq<Move<T>>) -> bool {
    forall|i: int| 0 <= i < moves.len() ==> (#[trigger] moves[i]) is Work
}

proof fn lemma_pending_update<T>(queues: Seq<Seq<T>>, i: int, q: Seq<T>)
    requires
        0 <= i < queues.len(),
    ensures
        pending(queues.update(i, q)).add(queues[i].to_multiset()) == pending(queues).add(
            q.to_multiset(),
        ),
    decreases queues.len(),
{
    broadcast use vstd::multiset::group_multiset_axioms;

    let changed = queues.update(i, q);
    let rest = queues.drop_last();
    let lhs = pending(changed).add(queues[i].to_multiset());
    let rhs = pending(queues).add(q.to_multiset());
    if i == queues.len() - 1 {
        assert(changed.drop_last() =~= rest);
        assert forall|t: T| lhs.count(t) == rhs.count(t) by {}
    } else {
        assert(changed.drop_last() =~= rest.update(i, q));
        lemma_pending_update(rest, i, q);
        let smaller_lhs = pending(rest.update(i, q)).add(rest[i].to_multiset());
        let smaller_rhs = pending(rest).add(q.to_multiset());
        assert forall|t: T| lhs.count(t) == rhs.count(t) by {
            assert(smaller_lhs.count(t) == smaller_rhs.count(t));
        }
    }
    assert(lhs =~= rhs);
}

proof fn lemma_pending_of_empty_queues<T>(queues: Seq<Seq<T>>)
    ensures
        all_empty(queues) <==> pending(queues) == Multiset::<T>::empty(),
    decreases queues.len(),
{
    broadcast use vstd::seq_lib::group_to_multiset_ensures;
    broadcast use vstd::multiset::group_multiset_axioms;

    if queues.len() == 0 {
    } else {
        let rest = queues.drop_last();
        lemma_pending_of_empty_queues(rest);
        assert(forall|i: int| 0 <= i < rest.len() ==> rest[i] == queues[i]);
        if all_empty(queues) {
            assert(all_empty(rest));
            assert(queues.last() == queues[queues.len() - 1]);
            assert(queues.last().to_multiset().len() == 0);
            assert(queues.last().to_multiset() =~= Multiset::<T>::empty());
            assert(pending(queues) =~= Multiset::<T>::empty());
        }
        if pending(queues) == Multiset::<T>::empty() {
            assert(pending(rest) =~= Multiset::<T>::empty()) by {
                assert forall|t: T| pending(rest).count(t) == 0 by {
                    assert(pending(queues).count(t) == 0);
                }
            }
            assert(queues.last().to_multiset() =~= Multiset::<T>::empty()) by {
                assert forall|t: T| queues.last().to_multiset().count(t) == 0 by {
                    assert(pending(queues).count(t) == 0);
                }
            }
            assert(queues.last().to_multiset().len() == 0);
            assert(all_empty(rest));
            assert forall|i: int| 0 <= i < queues.len() implies (#[trigger] queues[i]).len()
                == 0 by {
                if i < rest.len() {
                    assert(rest[i].len() == 0);
                }
            }
        }
    }
}

/// A submitted task joins the waiting tasks.
pub proof fn lemma_enqueue_adds<T>(queues: Seq<Seq<T>>, task: T)
    requires
        queues.len() >= 1,
    ensures
        pending(pool_enqueue(queues, task)) == pending(queues).insert(task),
{
    broadcast use vstd::seq_lib::group_to_multiset_ensures;
    broadcast use vstd::multiset::group_multiset_axioms;

    let grown = queues[0].push(task);
    lemma_pending_update(queues, 0, grown);
    let after = pending(pool_enqueue(queues, task));
    assert(grown.to_multiset() =~= queues[0].to_multiset().insert(task));
    assert forall|t: T| after.count(t) == pending(queues).insert(task).count(t) by {
        assert(after.add(queues[0].to_multiset()).count(t) == pending(queues).add(
            grown.to_multiset(),
        ).count(t));
    }
    assert(after =~= pending(queues).insert(task));
}

proof fn lemma_pop_local_removes<T>(queues: Seq<Seq<T>>, me: int)
    requires
        0 <= me < queues.len(),
        queues[me].len() > 0,
    ensures
        pending(queues) == pending(pool_pop_local(queues, me).0).insert(queues[me].last()),
{
    broadcast use vstd::seq_lib::group_to_multiset_ensures;
    broadcast use vstd::multiset::group_multiset_axioms;

    let q = queues[me];
    let shrunk = q.drop_last();
    assert(q =~= shrunk.push(q.last()));
    assert(q.to_multiset() =~= shrunk.to_multiset().insert(q.last()));
    lemma_pending_update(queues, me, shrunk);
    let after = pending(pool_pop_local(queues, me).0);
    assert forall|t: T| pending(queues).count(t) == after.insert(q.last()).count(t) by {
        assert(after.add(q.to_multiset()).count(t) == pending(queues).add(
            shrunk.to_multiset(),
        ).count(t));
    }
    assert(pending(queues) =~= after.insert(q.last()));
}

proof fn lemma_steal_removes<T>(queues: Seq<Seq<T>>, victim: int)
    requires
        0 <= victim < queues.len(),
        queues[victim].len() > 0,
    ensures
        pending(queues) == pending(pool_steal(queues, victim).0).insert(queues[victim].first()),
{
    broadcast use vstd::seq_lib::group_to_multiset_ensures;
    broadcast use vstd::multiset::group_multiset_axioms;

    let q = queues[victim];
    let shrunk = q.drop_first();
    assert(shrunk =~= q.remove(0));
    assert(shrunk.to_multiset() =~= q.to_multiset().remove(q.first()));
    lemma_pending_update(queues, victim, shrunk);
    let after = pending(pool_steal(queues, victim).0);
    assert forall|t: T| pending(queues).count(t) == after.insert(q.first()).count(t) by {
        assert(after.add(q.to_multiset()).count(t) == pending(queues).add(
            shrunk.to_multiset(),
        ).count(t));
        assert(q.to_multiset().count(q.first()) > 0);
    }
    assert(pending(queues) =~= after.insert(q.first()));
}

/// A pass of a worker through its loop takes exactly the task it comes out
/// with from the waiting tasks, and comes out with none exactly where no
/// task waits in any queue.
pub proof fn lemma_next_task_removes<T>(queues: Seq<Seq<T>>, me: int)
    requires
        0 <= me < queues.len(),
    ensures
        match pool_next_task(queues, me).1 {
            Some(t) => {
                &&& pending(queues) == pending(pool_next_task(queues, me).0).insert(t)
                &&& pool_next_task(queues, me).0.len() == queues.len()
            },
            None => {
                &&& pool_next_task(queues, me).0 == queues
                &&& all_empty(queues)
            },
        },
        pool_next_task(queues, me).1 is None <==> all_empty(queues),
{
    if queues[me].len() > 0 {
        lemma_pop_local_removes(queues, me);
    } else if has_victim(queues, me) {
        lemma_first_victim(queues, me);
        let v = first_victim(queues, me);
        lemma_steal_removes(queues, v);
        assert(queues[v].len() > 0);
    } else {
        assert forall|i: int| 0 <= i < queues.len() implies (#[trigger] queues[i]).len() == 0 by {
            if i != me {
                assert(!is_victim(queues, me, i));
            }
        }
    }
}

proof fn lemma_replay_keeps_workers<T>(count: int, moves: Seq<Move<T>>)
    requires
        count >= 1,
    ensures
        replay(count, moves).queues.len() == count,
    decreases moves.len(),
{
    if moves.len() > 0 {
        lemma_replay_keeps_workers(count, moves.drop_last());
        let h = replay(count, moves.drop_last());
        match moves.last() {
            Move::Submit(task) => {},
            Move::Work(me) => {
                if 0 <= me < h.queues.len() {
                    lemma_next_task_removes(h.queues, me);
                }
            },
        }
    }
}

/// At every point of every history, each submitted task has either been run
/// or waits in a queue, and nothing else has been run or waits: as multisets,
/// the submitted tasks are the executed tasks together with the waiting ones.
pub proof fn law_tasks_are_conserved<T>(count: int, moves: Seq<Move<T>>)
    requires
        count >= 1,
    ensures
        replay(count, moves).submitted.to_multiset() == replay(
            count,
            moves,
        ).executed.to_multiset().add(pending(replay(count, moves).queues)),
    decreases moves.len(),
{
    broadcast use vstd::seq_lib::group_to_multiset_ensures;
    broadcast use vstd::multiset::group_multiset_axioms;

    let now = replay(count, moves);
    if moves.len() == 0 {
        lemma_pending_of_empty_queues(fresh_pool::<T>(count));
        assert(now.submitted.to_multiset() =~= now.executed.to_multiset().add(
            pending(now.queues),
        ));
    } else {
        let h = replay(count, moves.drop_last());
        law_tasks_are_conserved(count, moves.drop_last());
        lemma_replay_keeps_workers(count, moves.drop_last());
        match moves.last() {
            Move::Submit(task) => {
                lemma_enqueue_adds(h.queues, task);
            },
            Move::Work(me) => {
                if 0 <= me < h.queues.len() {
                    lemma_next_task_removes(h.queues, me);
                }
            },
        }
        assert(now.submitted.to_multiset() =~= now.executed.to_multiset().add(
            pending(now.queues),
        ));
    }
}

/// Once a worker comes out of its loop with nothing, every task that was
/// submitted has been run, each exactly as often as it was submitted, however
/// the tasks moved between the queues on the way.
pub proof fn law_every_task_runs_once<T>(count: int, moves: Seq<Move<T>>, me: int)
    requires
        count >= 1,
        0 <= me < count,
        pool_next_task(replay(count, moves).queues, me).1 is None,
    ensures
        replay(count, moves).executed.to_multiset() == replay(
            count,
            moves,
        ).submitted.to_multiset(),
        replay(count, moves).executed.len() == replay(count, moves).submitted.len(),
{
    broadcast use vstd::seq_lib::group_to_multiset_ensures;
    broadcast use vstd::multiset::group_multiset_axioms;

    let now = replay(count, moves);
    law_tasks_are_conserved(count, moves);
    lemma_replay_keeps_workers(count, moves);
    lemma_next_task_removes(now.queues, me);
    lemma_pending_of_empty_queues(now.queues);
    assert(now.executed.to_multiset() =~= now.submitted.to_multiset());
    assert(now.executed.to_multiset().len() == now.submitted.to_multiset().len());
}

/// At every point of every history, no task has been run more often than it
/// had been submitted by then: none runs before it is submitted, and none
/// runs twice. Where no task was submitted twice, none was run twice.
pub proof fn law_nothing_runs_early_or_twice<T>(count: int, moves: Seq<Move<T>>, upto: int)
    requires
        count >= 1,
        0 <= upto <= moves.len(),
    ensures
        replay(count, moves.take(upto)).executed.to_multiset().subset_of(
            replay(count, moves.take(upto)).submitted.to_multiset(),
        ),
        replay(count, moves.take(upto)).submitted.no_duplicates() ==> replay(
            count,
            moves.take(upto),
        ).executed.no_duplicates(),
{
    broadcast use vstd::multiset::group_multiset_axioms;

    let now = replay(count, moves.take(upto));
    law_tasks_are_conserved(count, moves.take(upto));
    assert(now.executed.to_multiset().subset_of(now.submitted.to_multiset()));
    if now.submitted.no_duplicates() {
        now.submitted.lemma_multiset_has_no_duplicates();
        assert forall|t: T| now.executed.to_multiset().contains(t) implies now.executed.to_multiset().count(
            t,
        ) == 1 by {
            assert(now.submitted.to_multiset().count(t) >= now.executed.to_multiset().count(t));
        }
        now.executed.lemma_multiset_has_no_duplicates_conv();
    }
}

/// Tasks wait in the entry queue only: at every point of every history every
/// other queue is empty, so that a worker who does not own the entry queue
/// gets its tasks by stealing from it.
pub proof fn law_tasks_wait_in_entry_queue<T>(count: int, moves: Seq<Move<T>>)
    requires
        count >= 1,
    ensures
        replay(count, moves).queues.len() == count,
        forall|i: int|
            0 <= i < count && i != ENTRY_QUEUE ==> (#[trigger] replay(count, moves).queues[i]).len()
                == 0,
    decreases moves.len(),
{
    if moves.len() > 0 {
        let h = replay(count, moves.drop_last());
        law_tasks_wait_in_entry_queue(count, moves.drop_last());
        match moves.last() {
            Move::Submit(task) => {},
            Move::Work(me) => {
                if 0 <= me < count && h.queues[me].len() == 0 && has_victim(h.queues, me) {
                    lemma_first_victim(h.queues, me);
                    assert(first_victim(h.queues, me) == ENTRY_QUEUE);
                }
            },
        }
    }
}

/// A searching worker asks its peers in registry order, each at most once and
/// never itself: after a queue gave nothing it asks the first peer behind the
/// one it asked last, and it parks only when no peer is left behind that one.
pub proof fn law_scan_follows_registry_order<T>(worker: WorkerModel, asked: Target)
    requires
        worker.wf(),
        worker.state == (WorkerState::Stealing { asked }),
    ensures
        match worker.step(Event::<T>::Empty) {
            (WorkerState::Stealing { asked: Target::Peer(p) }, Action::TrySteal(q)) => {
                &&& p == q
                &&& scan_resumes(asked) <= p
                &&& is_peer(worker.me, worker.count, p as int)
                &&& forall|i: int|
                    scan_resumes(asked) <= i < p ==> !is_peer(worker.me, worker.count, i)
            },
            (WorkerState::Idle, Action::Park) => forall|i: int|
                scan_resumes(asked) <= i ==> !is_peer(worker.me, worker.count, i),
            _ => false,
        },
{
    lemma_peer_from_is_least(worker.me, worker.count, scan_resumes(asked));
}

/// A worker that is alone is never told to steal.
pub proof fn law_single_worker_never_steals<T>(worker: WorkerModel, event: Event<T>)
    requires
        worker.wf(),
        worker.count == 1,
    ensures
        !(worker.step(event).1 is TrySteal),
{
}

/// In a pool of one worker a pass through the loop is a take from the back of
/// the one queue: the tasks run newest first, and no queue is scanned.
pub proof fn law_single_worker_takes_newest<T>(queues: Seq<Seq<T>>)
    requires
        queues.len() == 1,
    ensures
        pool_next_task(queues, 0) == pool_pop_local(queues, 0),
{
    assert(!has_victim(queues, 0)) by {
        assert forall|i: int| !is_victim(queues, 0, i) by {}
    }
}

/// A worker runs a task only when a queue handed it that task.
pub proof fn law_only_found_tasks_run<T>(worker: WorkerModel, event: Event<T>)
    requires
        worker.wf(),
    ensures
        worker.step(event).1 is Run <==> event is Found,
        event matches Event::Found(task) ==> worker.step(event).1 == Action::Run(task),
{
}

/// While nothing is submitted nothing is run: every pass of every worker
/// comes out with nothing, and the queues stay empty.
pub proof fn law_no_submission_no_execution<T>(count: int, moves: Seq<Move<T>>, me: int)
    requires
        count >= 1,
        0 <= me < count,
        submits_nothing(moves),
    ensures
        replay(count, moves).executed == Seq::<T>::empty(),
        replay(count, moves).queues == fresh_pool::<T>(count),
        pool_next_task(replay(count, moves).queues, me) == (fresh_pool::<T>(count), None::<T>),
    decreases moves.len(),
{
    let fresh = fresh_pool::<T>(count);
    assert(all_empty(fresh));
    if moves.len() > 0 {
        let earlier = moves.drop_last();
        assert(submits_nothing(earlier)) by {
            assert forall|i: int| 0 <= i < earlier.len() implies (#[trigger] earlier[i]) is Work by {
                assert(earlier[i] == moves[i]);
            }
        }
        assert(moves.last() == moves[moves.len() - 1]);
        match moves.last() {
            Move::Submit(task) => {},
            Move::Work(w) => {
                if 0 <= w < count {
                    law_no_submission_no_execution(count, earlier, w);
                } else {
                    law_no_submission_no_execution(count, earlier, me);
                }
            },
        }
    }
    lemma_next_task_removes(fresh, me);
}

} // verus!
