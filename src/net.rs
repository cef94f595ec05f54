//! The decisions of the non-blocking socket adapters: which candidate
//! address a listener ends up bound to, and what a socket operation's
//! outcome means for the computation that attempted it.
use crate::reactor::armed;
use crate::reactor::dispatch_spec;
use crate::reactor::event_matches;
use crate::reactor::lemma_unmatched_waiters_stay;
use crate::reactor::read_key_spec;
use crate::reactor::waiters_of;
use crate::reactor::write_key_spec;
use crate::reactor::Reactor;
use crate::reactor::ReactorError;
use polling::Event;
use vstd::prelude::*;

verus! {

/// Why binding a listener failed.
#[derive(Debug, PartialEq, Eq)]
pub enum BindError<E> {
    /// Every candidate address failed; this is the error of the last one.
    Os(E),
    /// The address resolved to no candidate at all.
    Unresolved,
}

/// Whether `bind` may fail on `a`.
pub open spec fn may_fail<A, L, E, F: Fn(A) -> Result<L, E>>(bind: F, a: A) -> bool {
    exists|e: E| #[trigger] bind.ensures((a,), Err(e))
}

/// Whether `bind` may succeed with `l` on the candidate `i` of `addrs`
/// after failing on every candidate before it.
pub open spec fn first_bound<A, L, E, F: Fn(A) -> Result<L, E>>(
    bind: F,
    addrs: Seq<A>,
    i: int,
    l: L,
) -> bool {
    &&& 0 <= i < addrs.len()
    &&& bind.ensures((addrs[i],), Ok(l))
    &&& forall|j: int| 0 <= j < i ==> #[trigger] may_fail::<A, L, E, F>(bind, addrs[j])
}

/// Tries `bind` on each candidate in order and keeps the first success,
/// with the position of its candidate. When
/// all fail, the last failure is returned; when there is no candidate,
/// `Unresolved`.
pub fn bind_first<A, L, E, F: Fn(A) -> Result<L, E>>(addrs: Vec<A>, bind: F) -> (r: Result<
    (usize, L),
    BindError<E>,
>)
    requires
        forall|a: A| #[trigger] bind.requires((a,)),
    ensures
        r matches Err(BindError::Unresolved) <==> addrs@.len() == 0,
        r matches Ok((i, l)) ==> first_bound::<A, L, E, F>(bind, addrs@, i as int, l),
        r matches Err(BindError::Os(e)) ==> addrs@.len() > 0 && bind.ensures(
            (addrs@.last(),),
            Err(e),
        ) && forall|j: int|
            0 <= j < addrs@.len() ==> #[trigger] may_fail::<A, L, E, F>(bind, addrs@[j]),
{
    let mut last_err: Option<E> = None;
    let mut bound: Option<L> = None;
    let ghost all = addrs@;
    let mut rest = addrs;
    let n: usize = rest.len();
    let mut i: usize = 0;
    while bound.is_none() && rest.len() > 0
        invariant
            forall|a: A| #[trigger] bind.requires((a,)),
            i <= all.len(),
            all == addrs@,
            all.len() == n,
            rest@.len() == all.len() - i,
            rest@ == all.subrange(i as int, all.len() as int),
            bound is None ==> (i == 0 <==> last_err is None),
            bound is None ==> (last_err matches Some(e) ==> bind.ensures((all[i - 1],), Err(e))),
            bound is None ==> forall|j: int| 0 <= j < i ==> #[trigger] may_fail::<A, L, E, F>(bind, all[j]),
            bound matches Some(l) ==> first_bound::<A, L, E, F>(bind, all, i - 1, l),
        decreases rest@.len(),
    {
        let a = rest.remove(0);
        match bind(a) {
            Ok(l) => {
                bound = Some(l);
            },
            Err(e) => {
                assert(may_fail::<A, L, E, F>(bind, all[i as int]));
                last_err = Some(e);
            },
        }
        i = i + 1;
    }
    match bound {
        Some(l) => Ok((i - 1, l)),
        None => match last_err {
            Some(e) => Err(BindError::Os(e)),
            None => Err(BindError::Unresolved),
        },
    }
}

/// The direction a socket operation waits on.
#[derive(Debug, Clone, Copy, PartialEq, Eq, Structural)]
pub enum Direction {
    /// Accepting or reading.
    Read,
    /// Writing.
    Write,
}

/// What a non-blocking socket operation returned.
pub enum Attempt<T, E> {
    /// It completed with this value.
    Done(T),
    /// It could not complete without blocking.
    WouldBlock,
    /// It failed for any other reason.
    Failed(E),
}

/// What the computation that attempted the operation does next.
pub enum IoStep<T, E> {
    /// Complete with the value.
    Ready(T),
    /// Complete with the error; a failure other than "would block" ends the
    /// operation, never the process.
    Error(E),
    /// Suspend: the waker was armed, and this is the descriptor's new
    /// interest record, to push to the OS poller.
    Suspend(Event),
}

/// The reactor key that waiting in direction `d` on `fd` stands for.
pub open spec fn direction_key(fd: int, d: Direction) -> int {
    match d {
        Direction::Read => read_key_spec(fd),
        Direction::Write => write_key_spec(fd),
    }
}

/// Turns the outcome of a socket operation on `fd` into the computation's
/// next step. "Would block" arms `waker` on `fd` in direction `d`, so that
/// the computation is polled again only once that direction is ready;
/// that fails only when `fd` is not registered.
pub fn poll_io<T, E, W>(
    reactor: &mut Reactor<W>,
    fd: i32,
    d: Direction,
    attempt: Attempt<T, E>,
    waker: W,
) -> (r: Result<IoStep<T, E>, ReactorError>)
    requires
        old(reactor).wf(),
    ensures
        final(reactor).wf(),
        attempt is WouldBlock ==> {
            let k = direction_key(fd as int, d);
            if old(reactor)@.registered.contains(fd) {
                &&& final(reactor)@.registered == old(reactor)@.registered
                &&& final(reactor)@.waiters == old(reactor)@.waiters.insert(
                    k as u64,
                    waiters_of(old(reactor)@.waiters, k).push(waker),
                )
                &&& r matches Ok(IoStep::Suspend(e)) && e.key == fd as usize && e.readable == armed(
                    final(reactor)@.waiters,
                    read_key_spec(fd as int),
                ) && e.writable == armed(final(reactor)@.waiters, write_key_spec(fd as int))
            } else {
                &&& r == Err::<IoStep<T, E>, ReactorError>(ReactorError::NotRegistered)
                &&& final(reactor)@ == old(reactor)@
            }
        },
        attempt matches Attempt::Done(v) ==> r == Ok::<IoStep<T, E>, ReactorError>(IoStep::Ready(v))
            && final(reactor)@ == old(reactor)@,
        attempt matches Attempt::Failed(e) ==> r == Ok::<IoStep<T, E>, ReactorError>(
            IoStep::Error(e),
        ) && final(reactor)@ == old(reactor)@,
{
    match attempt {
        Attempt::Done(v) => Ok(IoStep::Ready(v)),
        Attempt::Failed(e) => Ok(IoStep::Error(e)),
        Attempt::WouldBlock => {
            let armed = match d {
                Direction::Read => reactor.wake_on_readable(fd, waker),
                Direction::Write => reactor.wake_on_writable(fd, waker),
            };
            match armed {
                Ok(e) => Ok(IoStep::Suspend(e)),
                Err(err) => Err(err),
            }
        },
    }
}

/// A computation suspended on "would block" stays suspended until its
/// direction is ready: after its waker `w` is armed on `fd` in direction `d`,
/// records that do not report that direction leave `w` armed, last in line,
/// so nothing wakes it.
pub proof fn lemma_suspended_until_ready<W>(
    m: Map<u64, Seq<W>>,
    fd: i32,
    d: Direction,
    w: W,
    evs: Seq<Event>,
)
    requires
        0 <= fd,
        forall|i: int| 0 <= i < evs.len() ==> !event_matches(#[trigger] evs[i], direction_key(fd as int, d)),
    ensures
        ({
            let k = direction_key(fd as int, d);
            let armed_m = m.insert(k as u64, waiters_of(m, k).push(w));
            let left = waiters_of(dispatch_spec(armed_m, evs).0, k);
            &&& armed(dispatch_spec(armed_m, evs).0, k)
            &&& left == waiters_of(m, k).push(w)
        }),
{
    let k = direction_key(fd as int, d);
    let armed_m = m.insert(k as u64, waiters_of(m, k).push(w));
    lemma_unmatched_waiters_stay(armed_m, evs, k);
}

} // verus!
