//! The FIFO run queue, the task record, and the scheduling state machine
//! that decides, turn by turn, whether to poll the root computation, poll a
//! queued task, or block in the reactor.
use std::collections::HashMap;
use std::collections::VecDeque;
use vstd::prelude::*;

verus! {

/// A FIFO queue of ready-to-run task references: insertion order is wake
/// order. Duplicates are kept; a task woken twice is queued twice.
pub struct TaskQueue<T> {
    queue: VecDeque<T>,
}

impl<T> View for TaskQueue<T> {
    type V = Seq<T>;

    closed spec fn view(&self) -> Seq<T> {
        self.queue@
    }
}

impl<T> Default for TaskQueue<T> {
    fn default() -> (r: Self)
        ensures
            r@ == Seq::<T>::empty(),
    {
        Self::new()
    }
}

impl<T> TaskQueue<T> {
    /// An empty queue.
    pub fn new() -> (r: Self)
        ensures
            r@ == Seq::<T>::empty(),
    {
        TaskQueue { queue: VecDeque::new() }
    }

    /// The number of queued entries.
    pub fn len(&self) -> (r: usize)
        ensures
            r == self@.len(),
    {
        self.queue.len()
    }

    /// Appends `runnable` at the back.
    pub fn enqueue(&mut self, runnable: T)
        ensures
            final(self)@ == old(self)@.push(runnable),
    {
        self.queue.push_back(runnable);
    }

    /// Takes the entry at the front, or `None` when the queue is empty.
    pub fn dequeue(&mut self) -> (r: Option<T>)
        ensures
            old(self)@.len() == 0 ==> r is None && final(self)@ == old(self)@,
            old(self)@.len() > 0 ==> r == Some(old(self)@[0]) && final(self)@ == old(
                self,
            )@.drop_first(),
    {
        let r = self.queue.pop_front();
        proof {
            if old(self)@.len() > 0 {
                assert(self@ =~= old(self)@.drop_first());
            }
        }
        r
    }
}

/// A spawned computation with its optional diagnostic name.
pub struct Task<F> {
    pub future: F,
    pub name: Option<String>,
}

/// The label a task is shown under: its name, or `<unnamed>`.
pub open spec fn task_label(name: Option<String>) -> Seq<char> {
    match name {
        Some(s) => s@,
        None => "<unnamed>"@,
    }
}

impl<F> Task<F> {
    pub fn new(future: F, name: Option<String>) -> (r: Self)
        ensures
            r.future == future,
            r.name == name,
    {
        Task { future, name }
    }

    /// The name the task was spawned with, or `<unnamed>`.
    pub fn label(&self) -> (r: String)
        ensures
            r@ == task_label(self.name),
    {
        match &self.name {
            Some(s) => s.as_str().to_owned(),
            None => "<unnamed>".to_owned(),
        }
    }
}

/// What the driver is to do next.
pub enum Action<T> {
    /// Poll the root computation. On `Ready` the run is over; on `Pending`
    /// ask again.
    PollRoot,
    /// Poll the task stored under the id, then report the outcome with `task_pending` or
    /// `task_finished`.
    PollTask(u64, T),
    /// Nothing can run: block in the reactor until an event wakes something.
    Wait,
}

/// The abstract state of a scheduler.
pub struct SchedulerModel<T> {
    /// Task ids in wake order, duplicates and finished ids included.
    pub queue: Seq<u64>,
    /// The live tasks that are not being polled right now.
    pub tasks: Map<u64, T>,
    /// The id the next spawned task gets; ids are never reused.
    pub next_id: u64,
    /// Whether the root computation asked to be polled again.
    pub root_woken: bool,
    /// Whether the current turn is draining the queue.
    pub draining: bool,
    /// The task handed out for polling, whose outcome is still due.
    pub in_flight: Option<u64>,
}

/// `q` without its leading ids of tasks that are gone (finished, or queued
/// twice and polled already).
pub open spec fn skip_stale<T>(q: Seq<u64>, tasks: Map<u64, T>) -> Seq<u64>
    decreases q.len(),
{
    if q.len() == 0 {
        q
    } else if tasks.contains_key(q[0]) {
        q
    } else {
        skip_stale(q.drop_first(), tasks)
    }
}

/// One scheduling decision. A turn polls the root if it was woken, then
/// drains the queue until it is empty, re-reading it so that tasks queued
/// meanwhile run in the same turn; only when the root is not woken and no
/// live task is queued does the driver block in the reactor.
pub open spec fn next_spec<T>(s: SchedulerModel<T>) -> (SchedulerModel<T>, Action<T>) {
    if !s.draining && !s.root_woken && s.queue.len() == 0 {
        (s, Action::Wait)
    } else if !s.draining && s.root_woken {
        (SchedulerModel { root_woken: false, draining: true, ..s }, Action::PollRoot)
    } else {
        let q = skip_stale(s.queue, s.tasks);
        if q.len() > 0 {
            let id = q[0];
            (
                SchedulerModel {
                    queue: q.drop_first(),
                    tasks: s.tasks.remove(id),
                    draining: true,
                    in_flight: Some(id),
                    ..s
                },
                Action::PollTask(id, s.tasks[id]),
            )
        } else if s.root_woken {
            (
                SchedulerModel { queue: q, root_woken: false, draining: true, ..s },
                Action::PollRoot,
            )
        } else {
            (SchedulerModel { queue: q, draining: false, ..s }, Action::Wait)
        }
    }
}

/// The state after a wake of task `id`: it joins the back of the queue.
pub open spec fn wake_task_spec<T>(s: SchedulerModel<T>, id: u64) -> SchedulerModel<T> {
    SchedulerModel { queue: s.queue.push(id), ..s }
}

/// The state after spawning `t`: it gets the next id and joins the back of
/// the queue.
pub open spec fn spawn_spec<T>(s: SchedulerModel<T>, t: T) -> SchedulerModel<T> {
    SchedulerModel {
        queue: s.queue.push(s.next_id),
        tasks: s.tasks.insert(s.next_id, t),
        next_id: (s.next_id + 1) as u64,
        ..s
    }
}

/// The scheduling core of a single-threaded executor. The driver polls the
/// computations; this decides which one, and when to block.
pub struct Scheduler<T> {
    queue: TaskQueue<u64>,
    tasks: HashMap<u64, T>,
    next_id: u64,
    root_woken: bool,
    draining: bool,
    in_flight: Option<u64>,
}

impl<T> View for Scheduler<T> {
    type V = SchedulerModel<T>;

    closed spec fn view(&self) -> SchedulerModel<T> {
        SchedulerModel {
            queue: self.queue@,
            tasks: self.tasks@,
            next_id: self.next_id,
            root_woken: self.root_woken,
            draining: self.draining,
            in_flight: self.in_flight,
        }
    }
}

/// Every live or in-flight task has an id below `next_id`, and the task
/// being polled is not also stored.
pub open spec fn scheduler_wf<T>(s: SchedulerModel<T>) -> bool {
    &&& forall|id: u64| #[trigger] s.tasks.contains_key(id) ==> id < s.next_id
    &&& s.in_flight matches Some(id) ==> id < s.next_id && !s.tasks.contains_key(id)
}

impl<T> Scheduler<T> {
    pub open spec fn wf(&self) -> bool {
        scheduler_wf(self@)
    }

    /// A scheduler with no tasks whose root is due to be polled.
    pub fn new() -> (r: Self)
        ensures
            r.wf(),
            r@.queue == Seq::<u64>::empty(),
            r@.tasks == Map::<u64, T>::empty(),
            r@.next_id == 0,
            r@.root_woken,
            !r@.draining,
            r@.in_flight is None,
    {
        broadcast use vstd::std_specs::hash::group_hash_axioms;

        Scheduler {
            queue: TaskQueue::new(),
            tasks: HashMap::new(),
            next_id: 0,
            root_woken: true,
            draining: false,
            in_flight: None,
        }
    }

    /// Stores `t` under a fresh id and queues it. `None` when the ids are
    /// used up; the scheduler is then unchanged.
    pub fn spawn(&mut self, t: T) -> (r: Option<u64>)
        requires
            old(self).wf(),
        ensures
            final(self).wf(),
            old(self)@.next_id == u64::MAX ==> r is None && final(self)@ == old(self)@,
            old(self)@.next_id < u64::MAX ==> r == Some(old(self)@.next_id) && final(self)@
                == spawn_spec(old(self)@, t),
    {
        broadcast use vstd::std_specs::hash::group_hash_axioms;

        if self.next_id == u64::MAX {
            return None;
        }
        let id = self.next_id;
        self.tasks.insert(id, t);
        self.queue.enqueue(id);
        self.next_id = id + 1;
        Some(id)
    }

    /// The wake of task `id`: it joins the back of the queue, even when it
    /// is queued already or gone (such entries are skipped).
    pub fn wake_task(&mut self, id: u64)
        requires
            old(self).wf(),
        ensures
            final(self).wf(),
            final(self)@ == wake_task_spec(old(self)@, id),
    {
        self.queue.enqueue(id);
    }

    /// The wake of the root computation.
    pub fn wake_root(&mut self)
        requires
            old(self).wf(),
        ensures
            final(self).wf(),
            final(self)@ == (SchedulerModel { root_woken: true, ..old(self)@ }),
    {
        self.root_woken = true;
    }

    /// The task handed out last returned `Pending`: it is stored again and
    /// runs next when something wakes it.
    pub fn task_pending(&mut self, id: u64, t: T)
        requires
            old(self).wf(),
            old(self)@.in_flight == Some(id),
        ensures
            final(self).wf(),
            final(self)@ == (SchedulerModel {
                tasks: old(self)@.tasks.insert(id, t),
                in_flight: None,
                ..old(self)@
            }),
    {
        broadcast use vstd::std_specs::hash::group_hash_axioms;

        self.tasks.insert(id, t);
        self.in_flight = None;
    }

    /// The task handed out last returned `Ready`: it is gone for good, and
    /// later wakes of its id are skipped.
    pub fn task_finished(&mut self, id: u64)
        requires
            old(self).wf(),
            old(self)@.in_flight == Some(id),
        ensures
            final(self).wf(),
            final(self)@ == (SchedulerModel { in_flight: None, ..old(self)@ }),
            !final(self)@.tasks.contains_key(id),
    {
        self.in_flight = None;
    }

    /// The number of live tasks, the one being polled excluded.
    pub fn task_count(&self) -> (r: usize)
        ensures
            r == self@.tasks.len(),
    {
        broadcast use vstd::std_specs::hash::group_hash_axioms;

        self.tasks.len()
    }

    /// Decides the next step of the run. The outcome of a task handed out
    /// before must have been reported first.
    pub fn next_action(&mut self) -> (r: Action<T>)
        requires
            old(self).wf(),
            old(self)@.in_flight is None,
        ensures
            final(self).wf(),
            (final(self)@, r) == next_spec(old(self)@),
    {
        broadcast use vstd::std_specs::hash::group_hash_axioms;

        let ghost start = self@;
        if !self.draining {
            if !self.root_woken && self.queue.len() == 0 {
                return Action::Wait;
            }
            if self.root_woken {
                self.root_woken = false;
                self.draining = true;
                return Action::PollRoot;
            }
            self.draining = true;
        }
        loop
            invariant
                self.wf(),
                self.draining,
                self.in_flight is None,
                self@.tasks == start.tasks,
                self@.next_id == start.next_id,
                self@.root_woken == start.root_woken,
                skip_stale(self@.queue, self@.tasks) == skip_stale(start.queue, start.tasks),
                start.draining || !start.root_woken,
                start.draining || start.queue.len() > 0,
                start == old(self)@,
            ensures
                self@.queue.len() == 0,
            decreases self@.queue.len(),
        {
            let ghost q = self@.queue;
            match self.queue.dequeue() {
                Some(id) => {
                    match self.tasks.remove(&id) {
                        Some(t) => {
                            self.in_flight = Some(id);
                            proof {
                                assert(skip_stale(q, start.tasks) == q);
                                assert(self@.tasks == start.tasks.remove(id));
                                assert(t == start.tasks[id]);
                            }
                            return Action::PollTask(id, t);
                        },
                        None => {
                            proof {
                                assert(self@.tasks =~= start.tasks);
                                assert(skip_stale(q, start.tasks) == skip_stale(self@.queue, start.tasks));
                            }
                        },
                    }
                },
                None => {
                    break ;
                },
            }
        }
        assert(skip_stale(self@.queue, self@.tasks) =~= Seq::<u64>::empty());
        if self.root_woken {
            self.root_woken = false;
            return Action::PollRoot;
        }
        self.draining = false;
        Action::Wait
    }
}


proof fn lemma_skip_stale<T>(q: Seq<u64>, tasks: Map<u64, T>)
    ensures
        skip_stale(q, tasks).len() <= q.len(),
        skip_stale(q, tasks) == q.subrange(q.len() - skip_stale(q, tasks).len(), q.len() as int),
        skip_stale(q, tasks).len() > 0 ==> tasks.contains_key(skip_stale(q, tasks)[0]),
        forall|i: int|
            0 <= i < q.len() - skip_stale(q, tasks).len() ==> !tasks.contains_key(#[trigger] q[i]),
    decreases q.len(),
{
    if q.len() > 0 && !tasks.contains_key(q[0]) {
        lemma_skip_stale(q.drop_first(), tasks);
        let r = skip_stale(q, tasks);
        assert(r == q.subrange(q.len() - r.len(), q.len() as int));
        assert forall|i: int| 0 <= i < q.len() - r.len() implies !tasks.contains_key(
            #[trigger] q[i],
        ) by {
            if i > 0 {
                assert(q[i] == q.drop_first()[i - 1]);
            }
        }
    } else {
        assert(q == q.subrange(0, q.len() as int));
    }
}

/// The driver blocks in the reactor only when nothing can run: the root is
/// not woken and no live task is queued, so every queued task that can still
/// make progress is polled before the thread blocks.
pub proof fn lemma_wait_only_when_idle<T>(s: SchedulerModel<T>)
    requires
        next_spec(s).1 is Wait,
    ensures
        !s.root_woken,
        skip_stale(s.queue, s.tasks).len() == 0,
        forall|i: int| 0 <= i < s.queue.len() ==> !s.tasks.contains_key(#[trigger] s.queue[i]),
{
    lemma_skip_stale(s.queue, s.tasks);
}

/// A drain is not cut short: while a live task is queued in a draining turn,
/// the next step polls a task, even if the root was woken meanwhile.
pub proof fn lemma_drain_runs_to_empty<T>(s: SchedulerModel<T>)
    requires
        s.draining,
        skip_stale(s.queue, s.tasks).len() > 0,
    ensures
        next_spec(s).1 is PollTask,
{
}

/// Only live tasks are polled, each handed out with its own state, and a
/// task being polled is not stored a second time.
pub proof fn lemma_polls_live_task<T>(s: SchedulerModel<T>, id: u64, t: T)
    requires
        next_spec(s).1 == Action::PollTask(id, t),
    ensures
        s.tasks.contains_key(id),
        t == s.tasks[id],
        !next_spec(s).0.tasks.contains_key(id),
        next_spec(s).0.in_flight == Some(id),
{
    lemma_skip_stale(s.queue, s.tasks);
}

/// A spawned task is runnable at once: it is stored and queued last, so a
/// live task is queued and the next step does not block in the reactor.
pub proof fn lemma_spawned_task_runnable<T>(s: SchedulerModel<T>, t: T)
    requires
        scheduler_wf(s),
        s.next_id < u64::MAX,
    ensures
        spawn_spec(s, t).tasks.contains_key(s.next_id),
        spawn_spec(s, t).queue.last() == s.next_id,
        skip_stale(spawn_spec(s, t).queue, spawn_spec(s, t).tasks).len() > 0,
        !(next_spec(spawn_spec(s, t)).1 is Wait),
{
    let s1 = spawn_spec(s, t);
    lemma_skip_stale(s1.queue, s1.tasks);
    if skip_stale(s1.queue, s1.tasks).len() == 0 {
        assert(!s1.tasks.contains_key(s1.queue[s1.queue.len() - 1]));
    }
}

/// A finished task stays gone: no step polls it again, and neither a wake
/// of any id nor a spawn brings it back.
pub proof fn lemma_finished_task_stays_gone<T>(s: SchedulerModel<T>, id: u64, woken: u64, t: T)
    requires
        scheduler_wf(s),
        id < s.next_id,
        !s.tasks.contains_key(id),
        s.in_flight != Some(id),
    ensures
        !(next_spec(s).1 matches Action::PollTask(j, _) && j == id),
        !next_spec(s).0.tasks.contains_key(id),
        next_spec(s).0.in_flight != Some(id),
        next_spec(s).0.next_id == s.next_id,
        !wake_task_spec(s, woken).tasks.contains_key(id),
        s.next_id < u64::MAX ==> !spawn_spec(s, t).tasks.contains_key(id),
{
    lemma_skip_stale(s.queue, s.tasks);
}

/// A task that wakes itself while being polled queues behind every task
/// queued before it and ahead of every task queued after it.
pub proof fn lemma_self_wake_order<T>(s: SchedulerModel<T>, id: u64, t: T, later: T)
    requires
        next_spec(s).1 == Action::PollTask(id, t),
        next_spec(s).0.next_id < u64::MAX,
    ensures
        ({
            let polled = next_spec(s).0;
            let woken = wake_task_spec(polled, id);
            spawn_spec(woken, later).queue == polled.queue + seq![id, polled.next_id]
        }),
{
    let polled = next_spec(s).0;
    assert(spawn_spec(wake_task_spec(polled, id), later).queue =~= polled.queue + seq![
        id,
        polled.next_id,
    ]);
}

/// The queue after enqueuing `items` one by one, front first.
pub open spec fn enqueue_all<T>(q: Seq<T>, items: Seq<T>) -> Seq<T>
    decreases items.len(),
{
    if items.len() == 0 {
        q
    } else {
        enqueue_all(q.push(items[0]), items.drop_first())
    }
}

/// What dequeuing until empty hands out, in order.
pub open spec fn drain_order<T>(q: Seq<T>) -> Seq<T>
    decreases q.len(),
{
    if q.len() == 0 {
        q
    } else {
        seq![q[0]] + drain_order(q.drop_first())
    }
}

/// The task queue is first in, first out: draining after enqueuing `items`
/// hands out what was queued before, then `items` in their order.
pub proof fn lemma_queue_fifo<T>(q: Seq<T>, items: Seq<T>)
    ensures
        drain_order(enqueue_all(q, items)) == q + items,
    decreases q.len() + 2 * items.len(),
{
    if items.len() > 0 {
        lemma_queue_fifo(q.push(items[0]), items.drop_first());
        assert(q.push(items[0]) + items.drop_first() =~= q + items);
    } else if q.len() > 0 {
        lemma_queue_fifo(q.drop_first(), items);
        assert(seq![q[0]] + q.drop_first() =~= q);
        assert(q + items =~= q);
        assert(q.drop_first() + items =~= q.drop_first());
    } else {
        assert(q + items =~= q);
    }
}

} // verus!
