use mini_runtime::net::bind_first;
use mini_runtime::net::poll_io;
use mini_runtime::net::Attempt;
use mini_runtime::net::BindError;
use mini_runtime::net::Direction;
use mini_runtime::net::IoStep;
use mini_runtime::reactor::Reactor;
use mini_runtime::reactor::ReactorError;

#[test]
fn bind_with_no_address_is_unresolved() {
    let r: Result<(usize, u16), BindError<String>> =
        bind_first(Vec::<u16>::new(), |p: u16| Ok::<u16, String>(p));
    assert_eq!(r, Err(BindError::Unresolved));
}

#[test]
fn bind_takes_first_success() {
    let r = bind_first(vec![1u16, 2, 3, 4], |p: u16| {
        if p >= 3 {
            Ok(p * 10)
        } else {
            Err(format!("port {}", p))
        }
    });
    assert_eq!(r, Ok((2, 30)));
}

#[test]
fn bind_reports_last_error() {
    let r = bind_first(vec![1u16, 2], |p: u16| Err::<u16, String>(format!("port {}", p)));
    assert_eq!(r, Err(BindError::Os("port 2".to_string())));
}

fn step_name(s: &Result<IoStep<u32, &str>, ReactorError>) -> String {
    match s {
        Ok(IoStep::Ready(v)) => format!("ready {}", v),
        Ok(IoStep::Error(e)) => format!("error {}", e),
        Ok(IoStep::Suspend(e)) => format!("suspend {} {} {}", e.key, e.readable, e.writable),
        Err(e) => format!("refused {:?}", e),
    }
}

#[test]
fn completed_operation_is_ready() {
    let mut r: Reactor<&str> = Reactor::new();
    r.add(5).unwrap();
    let s = poll_io(&mut r, 5, Direction::Read, Attempt::Done(12u32), "w");
    assert_eq!(step_name(&s), "ready 12");
    assert!(r.dispatch(&vec![polling::Event::all(5)]).is_empty());
}

#[test]
fn failed_operation_is_an_error() {
    let mut r: Reactor<&str> = Reactor::new();
    r.add(5).unwrap();
    let s = poll_io(&mut r, 5, Direction::Write, Attempt::<u32, &str>::Failed("reset"), "w");
    assert_eq!(step_name(&s), "error reset");
}

#[test]
fn would_block_arms_the_direction() {
    let mut r: Reactor<&str> = Reactor::new();
    r.add(5).unwrap();
    let s = poll_io(&mut r, 5, Direction::Write, Attempt::<u32, &str>::WouldBlock, "w");
    assert_eq!(step_name(&s), "suspend 5 false true");
    let s = poll_io(&mut r, 5, Direction::Read, Attempt::<u32, &str>::WouldBlock, "r");
    assert_eq!(step_name(&s), "suspend 5 true true");
    assert_eq!(r.dispatch(&vec![polling::Event::writable(5)]), vec!["w"]);
    assert_eq!(r.dispatch(&vec![polling::Event::all(5)]), vec!["r"]);
}

#[test]
fn would_block_on_unregistered_is_refused() {
    let mut r: Reactor<&str> = Reactor::new();
    let s = poll_io(&mut r, 8, Direction::Read, Attempt::<u32, &str>::WouldBlock, "w");
    assert_eq!(step_name(&s), "refused NotRegistered");
}
