use work_stealing::queue::WorkQueue;

#[test]
fn new_queue_is_empty() {
    let mut queue: WorkQueue<u32> = WorkQueue::new();
    assert!(queue.is_empty());
    assert_eq!(queue.len(), 0);
    assert_eq!(queue.pop_back(), None);
    assert_eq!(queue.pop_front(), None);
    assert!(queue.is_empty());
}

#[test]
fn push_back_grows_the_queue() {
    let mut queue: WorkQueue<u32> = WorkQueue::new();
    queue.push_back(7);
    assert!(!queue.is_empty());
    assert_eq!(queue.len(), 1);
    queue.push_back(8);
    queue.push_back(9);
    assert_eq!(queue.len(), 3);
}

#[test]
fn owner_takes_newest_first() {
    let mut queue: WorkQueue<u32> = WorkQueue::new();
    queue.push_back(1);
    queue.push_back(2);
    queue.push_back(3);
    assert_eq!(queue.pop_back(), Some(3));
    assert_eq!(queue.pop_back(), Some(2));
    assert_eq!(queue.len(), 1);
    assert_eq!(queue.pop_back(), Some(1));
    assert_eq!(queue.pop_back(), None);
}

#[test]
fn thief_takes_oldest_first() {
    let mut queue: WorkQueue<u32> = WorkQueue::new();
    queue.push_back(1);
    queue.push_back(2);
    queue.push_back(3);
    assert_eq!(queue.pop_front(), Some(1));
    assert_eq!(queue.pop_front(), Some(2));
    assert_eq!(queue.len(), 1);
    assert_eq!(queue.pop_front(), Some(3));
    assert_eq!(queue.pop_front(), None);
}

#[test]
fn owner_and_thief_take_from_opposite_ends() {
    let mut queue: WorkQueue<u32> = WorkQueue::new();
    queue.push_back(10);
    queue.push_back(20);
    queue.push_back(30);
    queue.push_back(40);
    assert_eq!(queue.pop_front(), Some(10));
    assert_eq!(queue.pop_back(), Some(40));
    assert_eq!(queue.pop_front(), Some(20));
    assert_eq!(queue.pop_back(), Some(30));
    assert!(queue.is_empty());
}

#[test]
fn queue_holds_tasks_that_are_closures() {
    let mut queue: WorkQueue<Box<dyn FnOnce() -> u32>> = WorkQueue::new();
    queue.push_back(Box::new(|| 1));
    queue.push_back(Box::new(|| 2));
    let newest = queue.pop_back().expect("two tasks were pushed");
    assert_eq!(newest(), 2);
    let oldest = queue.pop_front().expect("one task is left");
    assert_eq!(oldest(), 1);
    assert!(queue.pop_front().is_none());
}
