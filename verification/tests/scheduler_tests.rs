use work_stealing::scheduler::{Scheduler, SchedulerError, ENTRY_QUEUE};

fn pool_of(workers: usize) -> Scheduler<u32> {
    match Scheduler::new(workers) {
        Ok(pool) => pool,
        Err(_) => panic!("a pool of {} workers was refused", workers),
    }
}

#[test]
fn pool_without_workers_is_refused() {
    let refused = Scheduler::<u32>::new(0);
    assert_eq!(refused.err(), Some(SchedulerError::NoWorkers));
}

#[test]
fn new_pool_has_one_empty_queue_per_worker() {
    let pool = pool_of(4);
    assert_eq!(pool.worker_count(), 4);
    let mut worker: usize = 0;
    while worker < 4 {
        assert_eq!(pool.queue_len(worker), 0);
        worker += 1;
    }
    assert_eq!(pool_of(1).worker_count(), 1);
}

#[test]
fn entry_queue_is_the_first() {
    assert_eq!(ENTRY_QUEUE, 0);
}

#[test]
fn enqueue_fills_the_entry_queue_only() {
    let mut pool = pool_of(3);
    pool.enqueue(1);
    pool.enqueue(2);
    pool.enqueue(3);
    assert_eq!(pool.queue_len(0), 3);
    assert_eq!(pool.queue_len(1), 0);
    assert_eq!(pool.queue_len(2), 0);
    assert_eq!(pool.worker_count(), 3);
}

#[test]
fn pop_local_takes_the_newest() {
    let mut pool = pool_of(2);
    pool.enqueue(1);
    pool.enqueue(2);
    pool.enqueue(3);
    assert_eq!(pool.pop_local(0), Some(3));
    assert_eq!(pool.queue_len(0), 2);
    assert_eq!(pool.pop_local(1), None);
    assert_eq!(pool.pop_local(0), Some(2));
    assert_eq!(pool.pop_local(0), Some(1));
    assert_eq!(pool.pop_local(0), None);
    assert_eq!(pool.queue_len(0), 0);
}

#[test]
fn steal_from_takes_the_oldest() {
    let mut pool = pool_of(2);
    pool.enqueue(1);
    pool.enqueue(2);
    pool.enqueue(3);
    assert_eq!(pool.steal_from(0), Some(1));
    assert_eq!(pool.queue_len(0), 2);
    assert_eq!(pool.steal_from(1), None);
    assert_eq!(pool.steal_from(0), Some(2));
    assert_eq!(pool.steal_from(0), Some(3));
    assert_eq!(pool.steal_from(0), None);
}

#[test]
fn owner_of_the_entry_queue_runs_newest_first() {
    let mut pool = pool_of(3);
    pool.enqueue(1);
    pool.enqueue(2);
    pool.enqueue(3);
    assert_eq!(pool.next_task(0), Some(3));
    assert_eq!(pool.next_task(0), Some(2));
    assert_eq!(pool.next_task(0), Some(1));
    assert_eq!(pool.next_task(0), None);
}

#[test]
fn peer_steals_oldest_first() {
    let mut pool = pool_of(3);
    pool.enqueue(1);
    pool.enqueue(2);
    pool.enqueue(3);
    assert_eq!(pool.next_task(2), Some(1));
    assert_eq!(pool.queue_len(0), 2);
    assert_eq!(pool.queue_len(2), 0);
    assert_eq!(pool.next_task(1), Some(2));
    assert_eq!(pool.next_task(2), Some(3));
    assert_eq!(pool.next_task(1), None);
    assert_eq!(pool.next_task(2), None);
}

#[test]
fn owner_and_thief_share_the_entry_queue() {
    let mut pool = pool_of(2);
    let mut task: u32 = 1;
    while task <= 5 {
        pool.enqueue(task);
        task += 1;
    }
    assert_eq!(pool.next_task(0), Some(5));
    assert_eq!(pool.next_task(1), Some(1));
    assert_eq!(pool.next_task(1), Some(2));
    assert_eq!(pool.next_task(0), Some(4));
    assert_eq!(pool.next_task(0), Some(3));
    assert_eq!(pool.next_task(0), None);
    assert_eq!(pool.next_task(1), None);
}

#[test]
fn idle_pool_parks_every_worker() {
    let mut pool = pool_of(4);
    let mut round: u32 = 0;
    while round < 3 {
        let mut worker: usize = 0;
        while worker < 4 {
            assert_eq!(pool.next_task(worker), None);
            assert_eq!(pool.queue_len(worker), 0);
            worker += 1;
        }
        round += 1;
    }
}

#[test]
fn single_worker_pool_is_a_stack() {
    let mut pool = pool_of(1);
    pool.enqueue(1);
    pool.enqueue(2);
    assert_eq!(pool.next_task(0), Some(2));
    pool.enqueue(3);
    pool.enqueue(4);
    assert_eq!(pool.next_task(0), Some(4));
    assert_eq!(pool.next_task(0), Some(3));
    assert_eq!(pool.next_task(0), Some(1));
    assert_eq!(pool.next_task(0), None);
}

#[test]
fn submission_after_parking_is_found() {
    let mut pool = pool_of(2);
    assert_eq!(pool.next_task(1), None);
    assert_eq!(pool.next_task(0), None);
    pool.enqueue(7);
    assert_eq!(pool.next_task(1), Some(7));
    assert_eq!(pool.next_task(0), None);
}

#[test]
fn into_queues_hands_out_the_registry_in_order() {
    let mut pool = pool_of(3);
    pool.enqueue(4);
    pool.enqueue(5);
    let mut queues = pool.into_queues();
    assert_eq!(queues.len(), 3);
    assert_eq!(queues[0].len(), 2);
    assert_eq!(queues[1].len(), 0);
    assert_eq!(queues[2].len(), 0);
    assert_eq!(queues[0].pop_front(), Some(4));
    assert_eq!(queues[0].pop_back(), Some(5));
}
