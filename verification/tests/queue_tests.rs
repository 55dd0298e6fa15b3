use thermite::errors::TaskQueueError;
use thermite::queue::QueueEntry;
use thermite::queue::TimedQueue;
use thermite::queue::clear_task_queue;
use thermite::queue::dequeue_task;
use thermite::queue::enqueue_task;
use thermite::task::BaseTask;
use thermite::worker::dispatch_body;

fn one_shot(id: &str, at: u64) -> BaseTask {
    BaseTask {
        id: id.to_string(),
        category: "other".to_string(),
        task: "http://t/x".to_string(),
        scheduled_at: at,
        ..Default::default()
    }
}

#[test]
fn enqueue_keys_by_scheduled_at() {
    let mut q = TimedQueue::new();
    enqueue_task(&mut q, &one_shot("A", 5)).unwrap();
    assert_eq!(q.len(), 1);
    assert_eq!(q.entries[0].score, 5);
    let t = dequeue_task(&mut q, 5).unwrap().expect("due task");
    assert_eq!(t.id, "A");
    assert_eq!(t.scheduled_at, 5);
}

#[test]
fn pop_due_empty_queue_returns_none() {
    let mut q = TimedQueue::new();
    let r = dequeue_task(&mut q, 1000).unwrap();
    assert!(r.is_none());
}

#[test]
fn pop_due_never_returns_future_tasks() {
    let now: u64 = 1000;
    let mut q = TimedQueue::new();
    enqueue_task(&mut q, &one_shot("B", now + 60)).unwrap();
    for _ in 0..5 {
        assert!(dequeue_task(&mut q, now).unwrap().is_none());
    }
    assert_eq!(q.len(), 1);
}

#[test]
fn pop_due_returns_minimum_first() {
    let mut q = TimedQueue::new();
    enqueue_task(&mut q, &one_shot("late", 10)).unwrap();
    enqueue_task(&mut q, &one_shot("early", 5)).unwrap();
    let t = dequeue_task(&mut q, 20).unwrap().expect("due task");
    assert_eq!(t.id, "early");
    assert_eq!(t.scheduled_at, 5);
}

#[test]
fn order_preservation() {
    let now: u64 = 100;
    let mut q = TimedQueue::new();
    enqueue_task(&mut q, &one_shot("third", now + 3)).unwrap();
    enqueue_task(&mut q, &one_shot("first", now + 1)).unwrap();
    enqueue_task(&mut q, &one_shot("second", now + 2)).unwrap();
    let a = dequeue_task(&mut q, now + 4).unwrap().expect("first pop");
    let b = dequeue_task(&mut q, now + 4).unwrap().expect("second pop");
    let c = dequeue_task(&mut q, now + 4).unwrap().expect("third pop");
    assert_eq!(a.id, "first");
    assert_eq!(b.id, "second");
    assert_eq!(c.id, "third");
    assert!(a.scheduled_at <= b.scheduled_at && b.scheduled_at <= c.scheduled_at);
    assert!(dequeue_task(&mut q, now + 4).unwrap().is_none());
}

#[test]
fn duplicate_enqueue_keeps_one_entry() {
    let mut q = TimedQueue::new();
    let t = one_shot("dup", 7);
    enqueue_task(&mut q, &t).unwrap();
    enqueue_task(&mut q, &t).unwrap();
    assert_eq!(q.len(), 1);
}

#[test]
fn same_id_different_payloads_coexist() {
    let mut q = TimedQueue::new();
    let mut t1 = one_shot("same", 7);
    let mut t2 = one_shot("same", 7);
    t1.priority = "high".to_string();
    t2.priority = "low".to_string();
    enqueue_task(&mut q, &t1).unwrap();
    enqueue_task(&mut q, &t2).unwrap();
    assert_eq!(q.len(), 2);
}

#[test]
fn invalid_member_is_removed_not_wedging() {
    let mut q = TimedQueue {
        entries: vec![QueueEntry { member: "bogus".to_string(), score: 1 }],
    };
    let r = dequeue_task(&mut q, 10);
    assert!(matches!(r, Err(TaskQueueError::Serde(_))));
    assert_eq!(q.len(), 0);
    assert!(dequeue_task(&mut q, 10).unwrap().is_none());
}

#[test]
fn one_shot_firing() {
    let now: u64 = 500;
    let mut q = TimedQueue::new();
    enqueue_task(&mut q, &one_shot("A", now + 2)).unwrap();
    assert!(dequeue_task(&mut q, now + 1).unwrap().is_none());
    let t = dequeue_task(&mut q, now + 3).unwrap().expect("task A is due");
    assert_eq!(t.id, "A");
    assert_eq!(dispatch_body(&t), "{\"task_id\":\"A\"}");
    assert_eq!(q.len(), 0);
}

#[test]
fn clear_task_queue_empties() {
    let mut q = TimedQueue::new();
    enqueue_task(&mut q, &one_shot("A", 1)).unwrap();
    enqueue_task(&mut q, &one_shot("B", 2)).unwrap();
    clear_task_queue(&mut q).unwrap();
    assert_eq!(q.len(), 0);
    assert!(dequeue_task(&mut q, 100).unwrap().is_none());
}
