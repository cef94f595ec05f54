use mini_runtime::executor::Task;
use mini_runtime::executor::TaskQueue;

#[test]
fn fifo_order_of_three() {
    let mut q: TaskQueue<&str> = TaskQueue::new();
    q.enqueue("A");
    q.enqueue("B");
    q.enqueue("C");
    assert_eq!(q.len(), 3);
    assert_eq!(q.dequeue(), Some("A"));
    assert_eq!(q.dequeue(), Some("B"));
    assert_eq!(q.dequeue(), Some("C"));
    assert_eq!(q.dequeue(), None);
    assert_eq!(q.len(), 0);
}

#[test]
fn default_queue_is_empty() {
    let mut q: TaskQueue<u64> = TaskQueue::default();
    assert_eq!(q.len(), 0);
    assert_eq!(q.dequeue(), None);
}

#[test]
fn duplicates_are_kept() {
    let mut q: TaskQueue<u64> = TaskQueue::new();
    q.enqueue(7);
    q.enqueue(7);
    assert_eq!(q.len(), 2);
    assert_eq!(q.dequeue(), Some(7));
    assert_eq!(q.dequeue(), Some(7));
}

#[test]
fn task_label_uses_name() {
    let t = Task::new((), Some("echo-1".to_string()));
    assert_eq!(t.label(), "echo-1");
}

#[test]
fn task_label_without_name() {
    let t = Task::new(5u8, None);
    assert_eq!(t.label(), "<unnamed>");
    assert_eq!(t.future, 5u8);
}
