use mini_runtime::reactor::read_key;
use mini_runtime::reactor::write_key;
use mini_runtime::reactor::Reactor;
use mini_runtime::reactor::ReactorError;
use polling::Event;

fn interest(e: Event) -> (usize, bool, bool) {
    (e.key, e.readable, e.writable)
}

#[test]
fn keys_of_directions() {
    assert_eq!(read_key(5), 10);
    assert_eq!(write_key(5), 11);
    assert_eq!(read_key(0), 0);
    assert_eq!(write_key(i32::MAX), 4294967295);
}

#[test]
fn add_gives_empty_interest() {
    let mut r: Reactor<&str> = Reactor::new();
    assert_eq!(interest(r.add(4).unwrap()), (4, false, false));
    assert_eq!(r.add(4).err(), Some(ReactorError::AlreadyRegistered));
    assert_eq!(r.add(-1).err(), Some(ReactorError::InvalidDescriptor));
}

#[test]
fn interest_follows_waiters() {
    let mut r: Reactor<&str> = Reactor::new();
    r.add(3).unwrap();
    assert_eq!(interest(r.get_interest(3)), (3, false, false));
    assert_eq!(interest(r.wake_on_readable(3, "r1").unwrap()), (3, true, false));
    assert_eq!(interest(r.wake_on_writable(3, "w1").unwrap()), (3, true, true));
    let woken = r.dispatch(&vec![Event::readable(3)]);
    assert_eq!(woken, vec!["r1"]);
    assert_eq!(interest(r.get_interest(3)), (3, false, true));
}

#[test]
fn arming_unregistered_fails() {
    let mut r: Reactor<&str> = Reactor::new();
    assert_eq!(r.wake_on_readable(9, "x").err(), Some(ReactorError::NotRegistered));
    assert_eq!(r.wake_on_writable(9, "x").err(), Some(ReactorError::NotRegistered));
    assert_eq!(r.delete(9), Err(ReactorError::NotRegistered));
}

#[test]
fn waiter_fires_only_on_its_event_and_once() {
    let mut r: Reactor<&str> = Reactor::new();
    r.add(3).unwrap();
    r.add(4).unwrap();
    r.wake_on_readable(3, "a").unwrap();
    r.wake_on_readable(3, "b").unwrap();
    r.wake_on_writable(4, "c").unwrap();
    // an event for another descriptor or direction wakes nothing here
    assert!(r.dispatch(&vec![Event::writable(3), Event::readable(4)]).is_empty());
    let evs = vec![Event::readable(3)];
    assert_eq!(r.dispatch(&evs), vec!["a", "b"]);
    assert!(r.dispatch(&evs).is_empty());
    assert_eq!(r.dispatch(&vec![Event::all(4)]), vec!["c"]);
}

#[test]
fn dispatch_order_follows_events() {
    let mut r: Reactor<u32> = Reactor::new();
    r.add(1).unwrap();
    r.add(2).unwrap();
    r.wake_on_writable(1, 10).unwrap();
    r.wake_on_readable(1, 11).unwrap();
    r.wake_on_readable(2, 20).unwrap();
    let woken = r.dispatch(&vec![Event::readable(2), Event::all(1)]);
    assert_eq!(woken, vec![20, 11, 10]);
}

#[test]
fn event_beyond_descriptors_is_ignored() {
    let mut r: Reactor<u32> = Reactor::new();
    r.add(1).unwrap();
    r.wake_on_readable(1, 1).unwrap();
    assert!(r.dispatch(&vec![Event::all(usize::MAX)]).is_empty());
    assert_eq!(interest(r.get_interest(1)), (1, true, false));
}

#[test]
fn delete_clears_waiters() {
    let mut r: Reactor<u32> = Reactor::new();
    r.add(6).unwrap();
    r.wake_on_readable(6, 1).unwrap();
    r.wake_on_writable(6, 2).unwrap();
    assert_eq!(r.delete(6), Ok(()));
    assert!(r.dispatch(&vec![Event::all(6)]).is_empty());
    assert_eq!(r.delete(6), Err(ReactorError::NotRegistered));
    assert_eq!(interest(r.add(6).unwrap()), (6, false, false));
}
