use mini_runtime::executor::Action;
use mini_runtime::executor::Scheduler;

fn poll_task(a: Action<&'static str>) -> (u64, &'static str) {
    match a {
        Action::PollTask(id, t) => (id, t),
        Action::PollRoot => panic!("expected a task, got the root"),
        Action::Wait => panic!("expected a task, got a wait"),
    }
}

fn is_root(a: &Action<&'static str>) -> bool {
    matches!(a, Action::PollRoot)
}

fn is_wait(a: &Action<&'static str>) -> bool {
    matches!(a, Action::Wait)
}

#[test]
fn root_is_polled_first() {
    let mut s: Scheduler<&str> = Scheduler::new();
    assert!(is_root(&s.next_action()));
    assert!(is_wait(&s.next_action()));
}

#[test]
fn completing_task_polled_once_without_wait() {
    let mut s: Scheduler<&str> = Scheduler::new();
    assert!(is_root(&s.next_action()));
    // the root spawns a task and stays pending
    let id = s.spawn("g").unwrap();
    let (got, t) = poll_task(s.next_action());
    assert_eq!((got, t), (id, "g"));
    s.task_finished(id);
    assert_eq!(s.task_count(), 0);
    // a late wake of the finished task does not poll it again
    s.wake_task(id);
    assert!(is_wait(&s.next_action()));
    assert!(is_wait(&s.next_action()));
}

#[test]
fn tasks_spawned_during_drain_run_in_same_pass() {
    let mut s: Scheduler<&str> = Scheduler::new();
    assert!(is_root(&s.next_action()));
    let a = s.spawn("a").unwrap();
    let (id, _) = poll_task(s.next_action());
    assert_eq!(id, a);
    let b = s.spawn("b").unwrap();
    s.task_finished(a);
    let (id, _) = poll_task(s.next_action());
    assert_eq!(id, b);
    s.task_finished(b);
    assert!(is_wait(&s.next_action()));
}

#[test]
fn root_woken_during_drain_waits_for_drain() {
    let mut s: Scheduler<&str> = Scheduler::new();
    assert!(is_root(&s.next_action()));
    let a = s.spawn("a").unwrap();
    let b = s.spawn("b").unwrap();
    let (id, _) = poll_task(s.next_action());
    assert_eq!(id, a);
    s.wake_root();
    s.task_finished(a);
    let (id, _) = poll_task(s.next_action());
    assert_eq!(id, b);
    s.task_finished(b);
    assert!(is_root(&s.next_action()));
}

#[test]
fn self_wake_queues_between_earlier_and_later() {
    let mut s: Scheduler<&str> = Scheduler::new();
    assert!(is_root(&s.next_action()));
    let a = s.spawn("a").unwrap();
    let b = s.spawn("b").unwrap();
    let (id, t) = poll_task(s.next_action());
    assert_eq!(id, a);
    s.wake_task(a);
    s.task_pending(a, t);
    let c = s.spawn("c").unwrap();
    let order: Vec<u64> = (0..3)
        .map(|_| {
            let (id, _) = poll_task(s.next_action());
            s.task_finished(id);
            id
        })
        .collect();
    assert_eq!(order, vec![b, a, c]);
    assert!(is_wait(&s.next_action()));
}

#[test]
fn pending_task_waits_for_its_wake() {
    let mut s: Scheduler<&str> = Scheduler::new();
    assert!(is_root(&s.next_action()));
    let a = s.spawn("a").unwrap();
    let (id, t) = poll_task(s.next_action());
    s.task_pending(id, t);
    assert!(is_wait(&s.next_action()));
    s.wake_task(a);
    let (id, t) = poll_task(s.next_action());
    assert_eq!((id, t), (a, "a"));
}

#[test]
fn root_completion_abandons_pending_tasks() {
    let mut s: Scheduler<&str> = Scheduler::new();
    assert!(is_root(&s.next_action()));
    let a = s.spawn("a").unwrap();
    let (id, t) = poll_task(s.next_action());
    s.task_pending(id, t);
    s.wake_root();
    assert!(is_root(&s.next_action()));
    // the root is ready now: the run ends with the task still stored
    assert_eq!(s.task_count(), 1);
    let _ = a;
}

#[test]
fn ids_are_fresh() {
    let mut s: Scheduler<u8> = Scheduler::new();
    assert_eq!(s.spawn(1), Some(0));
    assert_eq!(s.spawn(2), Some(1));
    assert_eq!(s.spawn(3), Some(2));
    assert_eq!(s.task_count(), 3);
}
