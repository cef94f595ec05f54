//! Per-descriptor, per-direction waiter lists and the interest mask that is
//! pushed to the OS poller.
use polling::Event;
use std::collections::HashMap;
use std::collections::HashSet;
use vstd::prelude::*;

verus! {

/// The readiness record of the `polling` crate, whose fields are all public.
#[verifier::external_type_specification]
pub struct ExEvent(polling::Event);

/// Relies on polling::Event::none: a record with both directions cleared.
pub assume_specification[ polling::Event::none ](key: usize) -> (r: Event)
    ensures
        r.key == key,
        !r.readable,
        !r.writable,
;

/// Relies on polling::Event::readable: only the read direction set.
pub assume_specification[ polling::Event::readable ](key: usize) -> (r: Event)
    ensures
        r.key == key,
        r.readable,
        !r.writable,
;

/// Relies on polling::Event::writable: only the write direction set.
pub assume_specification[ polling::Event::writable ](key: usize) -> (r: Event)
    ensures
        r.key == key,
        !r.readable,
        r.writable,
;

/// Relies on polling::Event::all: both directions set.
pub assume_specification[ polling::Event::all ](key: usize) -> (r: Event)
    ensures
        r.key == key,
        r.readable,
        r.writable,
;

pub open spec fn read_key_spec(fd: int) -> int {
    fd * 2
}

pub open spec fn write_key_spec(fd: int) -> int {
    fd * 2 + 1
}

/// Key of the waiter list for the read direction of `fd`.
pub fn read_key(fd: i32) -> (k: u64)
    requires
        0 <= fd,
    ensures
        k == read_key_spec(fd as int),
{
    fd as u64 * 2
}

/// Key of the waiter list for the write direction of `fd`.
pub fn write_key(fd: i32) -> (k: u64)
    requires
        0 <= fd,
    ensures
        k == write_key_spec(fd as int),
{
    fd as u64 * 2 + 1
}

/// Why the reactor refused an operation on a descriptor.
#[derive(Debug, Clone, Copy, PartialEq, Eq, Structural)]
pub enum ReactorError {
    /// The descriptor is negative, so no OS object stands behind it.
    InvalidDescriptor,
    /// The descriptor was registered before and not yet removed.
    AlreadyRegistered,
    /// The descriptor is not registered with this reactor.
    NotRegistered,
}

/// The abstract state of a reactor: the registered descriptors, and for
/// each waiter key the handles waiting on it, in registration order.
/// A key without waiters is absent from `waiters`.
pub struct ReactorModel<W> {
    pub registered: Set<i32>,
    pub waiters: Map<u64, Seq<W>>,
}

/// The handles waiting on `k`, in registration order.
pub open spec fn waiters_of<W>(m: Map<u64, Seq<W>>, k: int) -> Seq<W> {
    if 0 <= k <= u64::MAX && m.contains_key(k as u64) {
        m[k as u64]
    } else {
        Seq::empty()
    }
}

/// Whether some handle waits on `k`.
pub open spec fn armed<W>(m: Map<u64, Seq<W>>, k: int) -> bool {
    0 <= k <= u64::MAX && m.contains_key(k as u64)
}

/// Removes the waiter list of `k`, handing it out.
pub open spec fn take_waiters<W>(m: Map<u64, Seq<W>>, k: int) -> (Map<u64, Seq<W>>, Seq<W>) {
    if armed(m, k) {
        (m.remove(k as u64), m[k as u64])
    } else {
        (m, Seq::empty())
    }
}

/// Whether `e` reports readiness of the direction that key `k` stands for.
pub open spec fn event_matches(e: Event, k: int) -> bool {
    &&& e.key <= i32::MAX
    &&& ((e.readable && k == read_key_spec(e.key as int)) || (e.writable && k == write_key_spec(
        e.key as int,
    )))
}

/// One readiness record: its read waiters leave first, then its write
/// waiters. A key beyond any descriptor wakes nothing.
pub open spec fn fire_event<W>(m: Map<u64, Seq<W>>, e: Event) -> (Map<u64, Seq<W>>, Seq<W>) {
    if e.key <= i32::MAX {
        let fd = e.key as int;
        let r = if e.readable {
            take_waiters(m, read_key_spec(fd))
        } else {
            (m, Seq::empty())
        };
        let w = if e.writable {
            take_waiters(r.0, write_key_spec(fd))
        } else {
            (r.0, Seq::empty())
        };
        (w.0, r.1 + w.1)
    } else {
        (m, Seq::empty())
    }
}

/// The records in the order the poller reported them: the waiter lists
/// left behind, and every woken handle in wake order.
pub open spec fn dispatch_spec<W>(m: Map<u64, Seq<W>>, evs: Seq<Event>) -> (
    Map<u64, Seq<W>>,
    Seq<W>,
)
    decreases evs.len(),
{
    if evs.len() == 0 {
        (m, Seq::empty())
    } else {
        let before = dispatch_spec(m, evs.drop_last());
        let last = fire_event(before.0, evs.last());
        (last.0, before.1 + last.1)
    }
}

/// Translates OS readiness into wake fan-out. `W` is the wake handle type.
pub struct Reactor<W> {
    registered: HashSet<i32>,
    token_to_wakers: HashMap<u64, Vec<W>>,
}

impl<W> View for Reactor<W> {
    type V = ReactorModel<W>;

    closed spec fn view(&self) -> ReactorModel<W> {
        ReactorModel {
            registered: self.registered@,
            waiters: self.token_to_wakers@.map_values(|v: Vec<W>| v@),
        }
    }
}

impl<W> Reactor<W> {
    /// Every waiter list is non-empty and belongs to a registered descriptor.
    pub open spec fn wf(&self) -> bool {
        &&& forall|fd: i32| #[trigger] self@.registered.contains(fd) ==> fd >= 0
        &&& forall|k: u64| #[trigger]
            self@.waiters.contains_key(k) ==> self@.waiters[k].len() > 0
                && self@.registered.contains((k / 2) as i32) && k / 2 <= i32::MAX
    }

    /// A reactor with no descriptors and no waiters.
    pub fn new() -> (r: Self)
        ensures
            r.wf(),
            r@.registered == Set::<i32>::empty(),
            r@.waiters == Map::<u64, Seq<W>>::empty(),
    {
        broadcast use vstd::std_specs::hash::group_hash_axioms;

        let r = Reactor { registered: HashSet::new(), token_to_wakers: HashMap::new() };
        proof {
            assert(r@.waiters =~= Map::<u64, Seq<W>>::empty());
        }
        r
    }

    /// Registers `fd`, with no interest yet. On success the record to hand to
    /// the OS poller for `fd` is returned; the caller also marks `fd`
    /// non-blocking there.
    pub fn add(&mut self, fd: i32) -> (r: Result<Event, ReactorError>)
        requires
            old(self).wf(),
        ensures
            final(self).wf(),
            fd < 0 ==> r == Err::<Event, ReactorError>(ReactorError::InvalidDescriptor),
            fd >= 0 && old(self)@.registered.contains(fd) ==> r == Err::<Event, ReactorError>(
                ReactorError::AlreadyRegistered,
            ),
            r is Err ==> final(self)@ == old(self)@,
            fd >= 0 && !old(self)@.registered.contains(fd) ==> {
                &&& r matches Ok(e) && e.key == fd as usize && !e.readable && !e.writable
                &&& final(self)@.registered == old(self)@.registered.insert(fd)
                &&& final(self)@.waiters == old(self)@.waiters
            },
    {
        broadcast use vstd::std_specs::hash::group_hash_axioms;

        if fd < 0 {
            return Err(ReactorError::InvalidDescriptor);
        }
        if self.registered.contains(&fd) {
            return Err(ReactorError::AlreadyRegistered);
        }
        self.registered.insert(fd);
        proof {
            assert(self@.waiters == old(self)@.waiters);
            assert forall|g: i32| #[trigger] self@.registered.contains(g) implies g >= 0 by {
                if g != fd {
                    assert(old(self)@.registered.contains(g));
                }
            }
            assert forall|k: u64| #[trigger] self@.waiters.contains_key(k) implies self@.waiters[k].len()
                > 0 && self@.registered.contains((k / 2) as i32) && k / 2 <= i32::MAX by {
                assert(old(self)@.waiters.contains_key(k));
            }
        }
        Ok(Event::none(fd as usize))
    }

    /// The interest record for `fd`: a direction is wanted exactly when some
    /// handle waits on it.
    pub fn get_interest(&self, fd: i32) -> (r: Event)
        requires
            0 <= fd,
        ensures
            r.key == fd as usize,
            r.readable == armed(self@.waiters, read_key_spec(fd as int)),
            r.writable == armed(self@.waiters, write_key_spec(fd as int)),
    {
        broadcast use vstd::std_specs::hash::group_hash_axioms;

        let read = self.token_to_wakers.contains_key(&read_key(fd));
        let write = self.token_to_wakers.contains_key(&write_key(fd));
        let key = fd as usize;
        match (read, write) {
            (false, false) => Event::none(key),
            (true, false) => Event::readable(key),
            (false, true) => Event::writable(key),
            (true, true) => Event::all(key),
        }
    }

    fn arm(&mut self, fd: i32, k: u64, w: W) -> (r: Result<Event, ReactorError>)
        requires
            old(self).wf(),
            0 <= fd ==> k == read_key_spec(fd as int) || k == write_key_spec(fd as int),
        ensures
            final(self).wf(),
            !old(self)@.registered.contains(fd) ==> r == Err::<Event, ReactorError>(
                ReactorError::NotRegistered,
            ) && final(self)@ == old(self)@,
            old(self)@.registered.contains(fd) ==> {
                &&& final(self)@.registered == old(self)@.registered
                &&& final(self)@.waiters == old(self)@.waiters.insert(
                    k,
                    waiters_of(old(self)@.waiters, k as int).push(w),
                )
                &&& r matches Ok(e) && e.key == fd as usize && e.readable == armed(
                    final(self)@.waiters,
                    read_key_spec(fd as int),
                ) && e.writable == armed(final(self)@.waiters, write_key_spec(fd as int))
            },
    {
        broadcast use vstd::std_specs::hash::group_hash_axioms;

        if !self.registered.contains(&fd) {
            return Err(ReactorError::NotRegistered);
        }
        assert(self@.registered.contains(fd));
        let mut list = match self.token_to_wakers.remove(&k) {
            Some(v) => v,
            None => Vec::new(),
        };
        list.push(w);
        self.token_to_wakers.insert(k, list);
        proof {
            assert(self@.waiters =~= old(self)@.waiters.insert(
                k,
                waiters_of(old(self)@.waiters, k as int).push(w),
            ));
            assert forall|j: u64| #[trigger] self@.waiters.contains_key(j) implies self@.waiters[j].len()
                > 0 && self@.registered.contains((j / 2) as i32) && j / 2 <= i32::MAX by {
                if j != k {
                    assert(old(self)@.waiters.contains_key(j));
                }
            }
        }
        Ok(self.get_interest(fd))
    }

    /// Appends `w` to the read waiters of `fd` and returns the new interest
    /// record of `fd`, for the caller to push to the OS poller.
    pub fn wake_on_readable(&mut self, fd: i32, w: W) -> (r: Result<Event, ReactorError>)
        requires
            old(self).wf(),
        ensures
            final(self).wf(),
            !old(self)@.registered.contains(fd) ==> r == Err::<Event, ReactorError>(
                ReactorError::NotRegistered,
            ) && final(self)@ == old(self)@,
            old(self)@.registered.contains(fd) ==> {
                let k = read_key_spec(fd as int);
                &&& final(self)@.registered == old(self)@.registered
                &&& final(self)@.waiters == old(self)@.waiters.insert(
                    k as u64,
                    waiters_of(old(self)@.waiters, k).push(w),
                )
                &&& r matches Ok(e) && e.key == fd as usize && e.readable && e.writable == armed(
                    old(self)@.waiters,
                    write_key_spec(fd as int),
                )
            },
    {
        let k: u64 = if fd >= 0 {
            read_key(fd)
        } else {
            0
        };
        self.arm(fd, k, w)
    }

    /// Appends `w` to the write waiters of `fd` and returns the new interest
    /// record of `fd`, for the caller to push to the OS poller.
    pub fn wake_on_writable(&mut self, fd: i32, w: W) -> (r: Result<Event, ReactorError>)
        requires
            old(self).wf(),
        ensures
            final(self).wf(),
            !old(self)@.registered.contains(fd) ==> r == Err::<Event, ReactorError>(
                ReactorError::NotRegistered,
            ) && final(self)@ == old(self)@,
            old(self)@.registered.contains(fd) ==> {
                let k = write_key_spec(fd as int);
                &&& final(self)@.registered == old(self)@.registered
                &&& final(self)@.waiters == old(self)@.waiters.insert(
                    k as u64,
                    waiters_of(old(self)@.waiters, k).push(w),
                )
                &&& r matches Ok(e) && e.key == fd as usize && e.writable && e.readable == armed(
                    old(self)@.waiters,
                    read_key_spec(fd as int),
                )
            },
    {
        let k: u64 = if fd >= 0 {
            write_key(fd)
        } else {
            0
        };
        self.arm(fd, k, w)
    }

    /// Drops every waiter of `fd`, in both directions, and unregisters it.
    /// The caller then removes `fd` from the OS poller.
    pub fn delete(&mut self, fd: i32) -> (r: Result<(), ReactorError>)
        requires
            old(self).wf(),
        ensures
            final(self).wf(),
            !old(self)@.registered.contains(fd) ==> r == Err::<(), ReactorError>(
                ReactorError::NotRegistered,
            ) && final(self)@ == old(self)@,
            old(self)@.registered.contains(fd) ==> {
                &&& r is Ok
                &&& final(self)@.registered == old(self)@.registered.remove(fd)
                &&& final(self)@.waiters == old(self)@.waiters.remove(
                    read_key_spec(fd as int) as u64,
                ).remove(write_key_spec(fd as int) as u64)
            },
    {
        broadcast use vstd::std_specs::hash::group_hash_axioms;

        if !self.registered.contains(&fd) {
            return Err(ReactorError::NotRegistered);
        }
        assert(self@.registered.contains(fd));
        let rk = read_key(fd);
        let wk = write_key(fd);
        self.token_to_wakers.remove(&rk);
        self.token_to_wakers.remove(&wk);
        self.registered.remove(&fd);
        proof {
            assert(self@.waiters =~= old(self)@.waiters.remove(rk).remove(wk));
            assert forall|g: i32| #[trigger] self@.registered.contains(g) implies g >= 0 by {
                assert(old(self)@.registered.contains(g));
            }
            assert forall|j: u64| #[trigger] self@.waiters.contains_key(j) implies self@.waiters[j].len()
                > 0 && self@.registered.contains((j / 2) as i32) && j / 2 <= i32::MAX by {
                assert(old(self)@.waiters.contains_key(j));
                assert(j != rk && j != wk);
                assert((j / 2) as i32 != fd);
            }
        }
        Ok(())
    }

    fn take(&mut self, k: u64) -> (r: Vec<W>)
        requires
            old(self).wf(),
        ensures
            final(self).wf(),
            final(self)@.registered == old(self)@.registered,
            (final(self)@.waiters, r@) == take_waiters(old(self)@.waiters, k as int),
    {
        broadcast use vstd::std_specs::hash::group_hash_axioms;

        let r = match self.token_to_wakers.remove(&k) {
            Some(v) => v,
            None => Vec::new(),
        };
        proof {
            if old(self)@.waiters.contains_key(k) {
                assert(self@.waiters =~= old(self)@.waiters.remove(k));
            } else {
                assert(self@.waiters =~= old(self)@.waiters);
            }
            assert forall|j: u64| #[trigger] self@.waiters.contains_key(j) implies self@.waiters[j].len()
                > 0 && self@.registered.contains((j / 2) as i32) && j / 2 <= i32::MAX by {
                assert(old(self)@.waiters.contains_key(j));
            }
        }
        r
    }

    /// Hands out, and forgets, every handle waiting on a direction that
    /// `events` reports ready: records in the order given, within one record
    /// the read waiters first, each list in registration order. Each handle
    /// is removed before anyone can wake it, so it fires at most once; a
    /// woken task arms again when it next would block.
    pub fn dispatch(&mut self, events: &Vec<Event>) -> (r: Vec<W>)
        requires
            old(self).wf(),
        ensures
            final(self).wf(),
            final(self)@.registered == old(self)@.registered,
            final(self)@.waiters == dispatch_spec(old(self)@.waiters, events@).0,
            r@ == dispatch_spec(old(self)@.waiters, events@).1,
    {
        let mut woken: Vec<W> = Vec::new();
        let mut i: usize = 0;
        while i < events.len()
            invariant
                i <= events@.len(),
                self.wf(),
                self@.registered == old(self)@.registered,
                (self@.waiters, woken@) == dispatch_spec(old(self)@.waiters, events@.take(i as int)),
            decreases events@.len() - i,
        {
            let e = events[i];
            proof {
                assert(events@.take(i as int + 1).drop_last() =~= events@.take(i as int));
                assert(events@.take(i as int + 1).last() == e);
            }
            if e.key <= i32::MAX as usize {
                let fd = e.key as i32;
                let mut got_r: Vec<W> = if e.readable {
                    self.take(read_key(fd))
                } else {
                    Vec::new()
                };
                let mut got_w: Vec<W> = if e.writable {
                    self.take(write_key(fd))
                } else {
                    Vec::new()
                };
                woken.append(&mut got_r);
                woken.append(&mut got_w);
            }
            proof {
                assert(woken@ =~= dispatch_spec(old(self)@.waiters, events@.take(i as int + 1)).1);
            }
            i = i + 1;
        }
        proof {
            assert(events@.take(i as int) =~= events@);
        }
        woken
    }
}


proof fn lemma_fire_event_shrinks<W>(m: Map<u64, Seq<W>>, e: Event, k: int)
    ensures
        armed(fire_event(m, e).0, k) ==> armed(m, k) && waiters_of(fire_event(m, e).0, k)
            == waiters_of(m, k),
        !event_matches(e, k) ==> waiters_of(fire_event(m, e).0, k) == waiters_of(m, k)
            && armed(fire_event(m, e).0, k) == armed(m, k),
        event_matches(e, k) ==> !armed(fire_event(m, e).0, k),
{
    if e.key <= i32::MAX {
        let fd = e.key as int;
        let rk = read_key_spec(fd);
        let wk = write_key_spec(fd);
        let r = if e.readable {
            take_waiters(m, rk)
        } else {
            (m, Seq::empty())
        };
        assert(armed(r.0, k) ==> armed(m, k) && waiters_of(r.0, k) == waiters_of(m, k));
        assert(!(e.readable && k == rk) ==> waiters_of(r.0, k) == waiters_of(m, k) && armed(r.0, k)
            == armed(m, k));
        assert(e.readable && k == rk ==> !armed(r.0, k));
    }
}

proof fn lemma_dispatch_shrinks<W>(m: Map<u64, Seq<W>>, evs: Seq<Event>, k: int)
    ensures
        armed(dispatch_spec(m, evs).0, k) ==> armed(m, k) && waiters_of(
            dispatch_spec(m, evs).0,
            k,
        ) == waiters_of(m, k),
    decreases evs.len(),
{
    if evs.len() > 0 {
        lemma_dispatch_shrinks(m, evs.drop_last(), k);
        lemma_fire_event_shrinks(dispatch_spec(m, evs.drop_last()).0, evs.last(), k);
    }
}

/// A handle fires only on its own edge: while no record in `evs` reports
/// the direction that `k` stands for, the handles waiting on `k` stay armed,
/// untouched and in order.
pub proof fn lemma_unmatched_waiters_stay<W>(m: Map<u64, Seq<W>>, evs: Seq<Event>, k: int)
    requires
        forall|i: int| 0 <= i < evs.len() ==> !event_matches(#[trigger] evs[i], k),
    ensures
        waiters_of(dispatch_spec(m, evs).0, k) == waiters_of(m, k),
        armed(dispatch_spec(m, evs).0, k) == armed(m, k),
    decreases evs.len(),
{
    if evs.len() > 0 {
        let init = evs.drop_last();
        assert forall|i: int| 0 <= i < init.len() implies !event_matches(#[trigger] init[i], k) by {
            assert(init[i] == evs[i]);
        }
        lemma_unmatched_waiters_stay(m, init, k);
        assert(!event_matches(evs[evs.len() - 1], k));
        lemma_fire_event_shrinks(dispatch_spec(m, init).0, evs.last(), k);
    }
}

/// A registration is consumed by its event: once a record in `evs` reports
/// the direction that `k` stands for, nothing waits on `k` any more.
pub proof fn lemma_matched_waiters_leave<W>(m: Map<u64, Seq<W>>, evs: Seq<Event>, i: int, k: int)
    requires
        0 <= i < evs.len(),
        event_matches(evs[i], k),
    ensures
        !armed(dispatch_spec(m, evs).0, k),
    decreases evs.len(),
{
    let init = evs.drop_last();
    if i == evs.len() - 1 {
        lemma_fire_event_shrinks(dispatch_spec(m, init).0, evs.last(), k);
    } else {
        assert(init[i] == evs[i]);
        lemma_matched_waiters_leave(m, init, i, k);
        lemma_fire_event_shrinks(dispatch_spec(m, init).0, evs.last(), k);
    }
}

proof fn lemma_dispatch_unarmed_silent<W>(m: Map<u64, Seq<W>>, evs: Seq<Event>)
    requires
        forall|i: int, k: int|
            0 <= i < evs.len() && #[trigger] event_matches(evs[i], k) ==> !armed(m, k),
    ensures
        dispatch_spec(m, evs).1 == Seq::<W>::empty(),
    decreases evs.len(),
{
    if evs.len() > 0 {
        let init = evs.drop_last();
        assert forall|i: int, k: int|
            0 <= i < init.len() && #[trigger] event_matches(init[i], k) implies !armed(m, k) by {
            assert(init[i] == evs[i]);
        }
        lemma_dispatch_unarmed_silent(m, init);
        let mid = dispatch_spec(m, init).0;
        let e = evs.last();
        if e.key <= i32::MAX {
            let fd = e.key as int;
            lemma_dispatch_shrinks(m, init, read_key_spec(fd));
            lemma_dispatch_shrinks(m, init, write_key_spec(fd));
            if e.readable {
                assert(event_matches(evs[evs.len() - 1], read_key_spec(fd)));
            }
            if e.writable {
                assert(event_matches(evs[evs.len() - 1], write_key_spec(fd)));
                lemma_fire_event_shrinks(mid, e, write_key_spec(fd));
            }
        }
        assert(dispatch_spec(m, evs).1 =~= Seq::<W>::empty());
    }
}

/// Each registration fires at most once: dispatching the same records a
/// second time, with nobody arming in between, wakes nobody.
pub proof fn lemma_dispatch_fires_once<W>(m: Map<u64, Seq<W>>, evs: Seq<Event>)
    ensures
        dispatch_spec(dispatch_spec(m, evs).0, evs).1 == Seq::<W>::empty(),
{
    let after = dispatch_spec(m, evs).0;
    assert forall|i: int, k: int|
        0 <= i < evs.len() && #[trigger] event_matches(evs[i], k) implies !armed(after, k) by {
        lemma_matched_waiters_leave(m, evs, i, k);
    }
    lemma_dispatch_unarmed_silent(after, evs);
}

} // verus!
