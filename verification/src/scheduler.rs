//! The scheduler: the timer queue and the dispatcher of one processor, and the
//! room of each task between them. Interrupts come in here; what goes out is
//! which task starts and for which instant the compare interrupt is to be
//! armed.
//!
//! A task has room for so many runs that were asked for and have not started,
//! whether they wait for their instant or for the processor. A request that
//! finds no room is dropped. What was stored is never lost: an entry leaves
//! the timer queue when it falls due and joins the line, and leaves the line
//! when it starts.

use crate::clock::{deadline_of, Duration, Instant};
use crate::dispatcher::{
    chosen, completed, completed_as, dispatched,
    lemma_pending_all, lemma_pending_remove, lemma_submitted_all_with_room, level_of, pending,
    raised, restored, restored_as, settle, settled, Dispatched, Dispatcher, Frame, Next, State,
};
use crate::task::{
    capacity, capacity_of, task_for_event, task_of_event, Invocation, Payload, PendingSpawn,
    TaskId, TOTAL_ROOM,
};
use crate::timer_queue::{
    armed_for, booked, due_count, inserted, invocations_of, lemma_booked_inserted,
    lemma_booked_split, lemma_due_count, sorted, Scheduled, TimerQueue,
};
use vstd::prelude::*;

verus! {

/// What a timer interrupt led to.
#[derive(Clone, Copy, Debug, PartialEq, Eq, Structural)]
pub struct TimerOutcome {
    /// How many entries had fallen due and joined the line.
    pub expired: usize,
    /// The invocation that starts now, if one does.
    pub started: Option<Invocation>,
    /// The instant for which the compare interrupt is to be armed, if an entry
    /// is left.
    pub rearm: Option<Instant>,
}

/// The scheduler as the contracts see it.
pub struct Plan {
    /// The runs that wait for their instant, the first to fall due in front.
    pub timers: Seq<PendingSpawn>,
    /// The running work and the runs that wait for the processor.
    pub work: State,
}

/// How many runs of `task` were asked for and have not started.
pub open spec fn outstanding(p: Plan, task: TaskId) -> nat {
    booked(p.timers, task) + pending(p.work.ready, task)
}

/// Whether the task has room for one more run.
pub open spec fn free(p: Plan, task: TaskId) -> bool {
    outstanding(p, task) < capacity_of(task)
}

/// No task has more runs outstanding than it has room for.
pub open spec fn within_room(p: Plan) -> bool {
    forall|task: TaskId| #[trigger] outstanding(p, task) <= capacity_of(task)
}

/// The plan after a run was asked for now: where the task has room the
/// invocation is dispatched; else nothing changes.
pub open spec fn spawned_now(p: Plan, inv: Invocation) -> Plan {
    if free(p, inv.task) {
        Plan { timers: p.timers, work: dispatched(p.work, inv) }
    } else {
        p
    }
}

/// What the caller is told after a run was asked for now.
pub open spec fn spawned_now_as(p: Plan, inv: Invocation) -> Dispatched {
    if !free(p, inv.task) {
        Dispatched::Dropped
    } else if crate::task::priority_of(inv.task) > level_of(p.work.stack) {
        Dispatched::Started
    } else {
        Dispatched::Queued
    }
}

/// The plan after a run was asked for at a later instant: where the task has
/// room the entry goes behind every entry due at or before its own instant;
/// else nothing changes.
pub open spec fn spawned_later(p: Plan, entry: PendingSpawn) -> Plan {
    if free(p, entry.task) {
        Plan { timers: inserted(p.timers, entry), work: p.work }
    } else {
        p
    }
}

/// What the caller is told after a run was asked for at a later instant.
pub open spec fn spawned_later_as(p: Plan, entry: PendingSpawn) -> Scheduled {
    if !free(p, entry.task) {
        Scheduled::Dropped
    } else if due_count(p.timers, entry.due.ticks) == 0 {
        Scheduled::Armed(entry.due)
    } else {
        Scheduled::Kept
    }
}

/// The line with every entry that is due at `now` at its end, in queue order.
pub open spec fn joined(p: Plan, now: Instant) -> State {
    State {
        stack: p.work.stack,
        ready: p.work.ready + invocations_of(
            p.timers.take(due_count(p.timers, now.ticks) as int),
        ),
    }
}

/// The plan after the compare interrupt: the entries that are due have left
/// the queue and joined the line, all of them, and the next in line has
/// started if its priority is above the level.
pub open spec fn expired(p: Plan, now: Instant) -> Plan {
    Plan {
        timers: p.timers.skip(due_count(p.timers, now.ticks) as int),
        work: settle(joined(p, now)),
    }
}

/// Settling takes at most one invocation out of the line and puts none in.
pub proof fn lemma_settle_pending(s: State, task: TaskId)
    ensures
        pending(settle(s).ready, task) <= pending(s.ready, task),
{
    crate::dispatcher::lemma_best(s.ready);
    match crate::dispatcher::best(s.ready) {
        Some(b) => {
            lemma_pending_remove(s.ready, b, task);
        },
        None => {},
    }
}

/// Where no task is over its room and one task has room left, the timer queue
/// holds fewer entries than all tasks together have room for.
pub proof fn lemma_queue_has_room(p: Plan, task: TaskId)
    requires
        within_room(p),
        free(p, task),
    ensures
        p.timers.len() < TOTAL_ROOM,
{
    let line = invocations_of(p.timers);
    lemma_pending_all(line);
    assert(outstanding(p, TaskId::CommandRx) <= capacity_of(TaskId::CommandRx));
    assert(outstanding(p, TaskId::ButtonClick) <= capacity_of(TaskId::ButtonClick));
    assert(outstanding(p, TaskId::OnGpiote) <= capacity_of(TaskId::OnGpiote));
    assert(outstanding(p, TaskId::Parse) <= capacity_of(TaskId::Parse));
    assert(outstanding(p, TaskId::Blink) <= capacity_of(TaskId::Blink));
    assert(outstanding(p, TaskId::Send) <= capacity_of(TaskId::Send));
    assert(outstanding(p, TaskId::BlinkLed) <= capacity_of(TaskId::BlinkLed));
    assert(outstanding(p, TaskId::ChangePwm) <= capacity_of(TaskId::ChangePwm));
    assert(outstanding(p, TaskId::SendCommand) <= capacity_of(TaskId::SendCommand));
    assert(outstanding(p, TaskId::SendingBlink) <= capacity_of(TaskId::SendingBlink));
    assert(outstanding(p, TaskId::SendingBuffer) <= capacity_of(TaskId::SendingBuffer));
    assert(outstanding(p, TaskId::Alternate) <= capacity_of(TaskId::Alternate));
    assert(outstanding(p, TaskId::Light) <= capacity_of(TaskId::Light));
    assert(outstanding(p, TaskId::Pace) <= capacity_of(TaskId::Pace));
}

/// Nothing is lost at the compare interrupt: every entry that was due is in
/// the line or has started, no entry that was not due has left the queue, and
/// every task is still within its room.
pub proof fn law_expiry_keeps_every_entry(p: Plan, now: Instant)
    requires
        within_room(p),
    ensures
        crate::dispatcher::submitted_all(
            p.work,
            invocations_of(p.timers.take(due_count(p.timers, now.ticks) as int)),
        ) == joined(p, now),
        within_room(expired(p, now)),
        forall|task: TaskId|
            outstanding(p, task) == booked(expired(p, now).timers, task) + #[trigger] pending(
                joined(p, now).ready,
                task,
            ),
{
    lemma_due_count(p.timers, now.ticks);
    let k = due_count(p.timers, now.ticks) as int;
    let invs = invocations_of(p.timers.take(k));
    assert forall|task: TaskId|
        pending(p.work.ready, task) + #[trigger] pending(invs, task) <= capacity_of(task) by {
        lemma_booked_split(p.timers, k, task);
        assert(outstanding(p, task) <= capacity_of(task));
    }
    lemma_submitted_all_with_room(p.work, invs);
    assert forall|task: TaskId|
        outstanding(p, task) == booked(expired(p, now).timers, task) + #[trigger] pending(
            joined(p, now).ready,
            task,
        ) by {
        lemma_booked_split(p.timers, k, task);
        crate::dispatcher::lemma_pending_concat(p.work.ready, invs, task);
    }
    assert forall|task: TaskId| #[trigger]
        outstanding(expired(p, now), task) <= capacity_of(task) by {
        lemma_settle_pending(joined(p, now), task);
        assert(outstanding(p, task) == booked(expired(p, now).timers, task) + pending(
            joined(p, now).ready,
            task,
        ));
        assert(outstanding(p, task) <= capacity_of(task));
    }
}

/// The timer queue and the dispatcher of one processor.
pub struct Scheduler {
    timers: TimerQueue,
    dispatcher: Dispatcher,
}

impl Scheduler {
    /// The pending entries and the running and waiting work.
    pub closed spec fn view(&self) -> Plan {
        Plan { timers: self.timers@, work: self.dispatcher@ }
    }

    #[verifier::type_invariant]
    spec fn well_formed(&self) -> bool {
        within_room(self@) && self.timers.limit() == TOTAL_ROOM
    }

    /// A scheduler with nothing pending, nothing waiting and nothing running.
    pub fn new() -> (r: Scheduler)
        ensures
            r@.timers == Seq::<PendingSpawn>::empty(),
            r@.work.stack == Seq::<Frame>::empty(),
            r@.work.ready == Seq::<Invocation>::empty(),
    {
        let timers = TimerQueue::new(TOTAL_ROOM);
        let dispatcher = Dispatcher::new();
        assert(invocations_of(timers@) =~= Seq::<Invocation>::empty());
        Scheduler { timers, dispatcher }
    }

    fn parts(&mut self) -> (r: (TimerQueue, Dispatcher))
        ensures
            r.0@ == old(self)@.timers,
            r.0.limit() == TOTAL_ROOM,
            r.1@ == old(self)@.work,
            within_room(old(self)@),
    {
        proof {
            use_type_invariant(&*self);
        }
        let mut taken = Scheduler::new();
        core::mem::swap(self, &mut taken);
        (taken.timers, taken.dispatcher)
    }

    fn dispatch(&mut self, inv: Invocation) -> (r: Dispatched)
        ensures
            final(self)@ == spawned_now(old(self)@, inv),
            r == spawned_now_as(old(self)@, inv),
            r == Dispatched::Dropped <==> !free(old(self)@, inv.task),
    {
        let (timers, mut dispatcher) = self.parts();
        let ghost before = Plan { timers: timers@, work: dispatcher@ };
        let waiting = dispatcher.waiting_for(inv.task);
        let booked = timers.booked_for(inv.task);
        assert(outstanding(before, inv.task) <= capacity_of(inv.task));
        let r = if booked + waiting < capacity(inv.task) {
            dispatcher.dispatch(inv)
        } else {
            Dispatched::Dropped
        };
        proof {
            let after = Plan { timers: timers@, work: dispatcher@ };
            assert forall|task: TaskId| #[trigger]
                outstanding(after, task) <= capacity_of(task) by {
                assert(outstanding(before, task) <= capacity_of(task));
                if r == Dispatched::Queued {
                    assert(after.work.ready.drop_last() =~= before.work.ready);
                }
            }
        }
        *self = Scheduler { timers, dispatcher };
        r
    }

    /// Asks for `task` to run now. Where the task has no room the request is
    /// dropped. Else the invocation starts at once if its priority is above
    /// the level, and waits in line if not.
    pub fn spawn(&mut self, task: TaskId, payload: Option<Payload>) -> (r: Dispatched)
        ensures
            final(self)@ == spawned_now(old(self)@, (Invocation { task, payload })),
            r == spawned_now_as(old(self)@, (Invocation { task, payload })),
            r == Dispatched::Dropped <==> !free(old(self)@, task),
    {
        self.dispatch(Invocation { task, payload })
    }

    /// Asks for `task` to run once `duration` has passed since `now`. Where
    /// the task has no room the request is dropped. Else the entry goes
    /// behind every entry due at or before its deadline, and the result says
    /// whether the compare interrupt is to be armed for it.
    pub fn spawn_after(
        &mut self,
        now: Instant,
        task: TaskId,
        duration: Duration,
        payload: Option<Payload>,
    ) -> (r: Scheduled)
        ensures
            final(self)@ == spawned_later(
                old(self)@,
                (PendingSpawn { task, due: deadline_of(now, duration), payload }),
            ),
            r == spawned_later_as(
                old(self)@,
                (PendingSpawn { task, due: deadline_of(now, duration), payload }),
            ),
            r == Scheduled::Dropped <==> !free(old(self)@, task),
    {
        let (mut timers, dispatcher) = self.parts();
        let ghost before = Plan { timers: timers@, work: dispatcher@ };
        let ghost entry = PendingSpawn { task, due: deadline_of(now, duration), payload };
        let waiting = dispatcher.waiting_for(task);
        proof {
            if free(before, task) {
                lemma_queue_has_room(before, task);
            }
        }
        let r = timers.spawn_after(now, task, duration, payload, waiting);
        proof {
            let after = Plan { timers: timers@, work: dispatcher@ };
            assert forall|other: TaskId| #[trigger]
                outstanding(after, other) <= capacity_of(other) by {
                assert(outstanding(before, other) <= capacity_of(other));
                lemma_booked_inserted(before.timers, entry, other);
            }
        }
        *self = Scheduler { timers, dispatcher };
        r
    }

    /// The compare interrupt has fired. Every entry that is due at `now`
    /// leaves the timer queue and joins the line, in queue order; then the
    /// next in line starts if its priority is above the level.
    pub fn on_timer_interrupt(&mut self, now: Instant) -> (r: TimerOutcome)
        ensures
            final(self)@ == expired(old(self)@, now),
            r.expired == due_count(old(self)@.timers, now.ticks),
            r.started == chosen(joined(old(self)@, now)),
            r.rearm == armed_for(final(self)@.timers),
            forall|i: int|
                0 <= i < final(self)@.timers.len() ==> final(self)@.timers[i].due.ticks
                    > now.ticks,
    {
        let (mut timers, mut dispatcher) = self.parts();
        let ghost before = Plan { timers: timers@, work: dispatcher@ };
        let due = timers.pop_due(now);
        let mut invs: Vec<Invocation> = Vec::new();
        let mut i: usize = 0;
        while i < due.len()
            invariant
                i <= due@.len(),
                invs@ == invocations_of(due@.take(i as int)),
            decreases due@.len() - i,
        {
            let entry = due[i];
            invs.push(Invocation { task: entry.task, payload: entry.payload });
            assert(invs@ =~= invocations_of(due@.take(i + 1)));
            i = i + 1;
        }
        assert(due@.take(i as int) =~= due@);
        proof {
            law_expiry_keeps_every_entry(before, now);
        }
        let started = dispatcher.dispatch_all(invs.as_slice());
        let rearm = timers.next_deadline();
        *self = Scheduler { timers, dispatcher };
        TimerOutcome { expired: due.len(), started, rearm }
    }

    /// An interrupt line has fired. A run of the task bound to it is asked
    /// for now; a line that no task is bound to is ignored.
    pub fn on_hardware_event(&mut self, event: u16) -> (r: Option<Dispatched>)
        ensures
            match task_of_event(event) {
                Some(task) => {
                    &&& final(self)@ == spawned_now(
                        old(self)@,
                        (Invocation { task, payload: None }),
                    )
                    &&& r == Some(spawned_now_as(old(self)@, (Invocation { task, payload: None })))
                },
                None => final(self)@ == old(self)@ && r is None,
            },
    {
        match task_for_event(event) {
            Some(task) => Some(self.dispatch(Invocation { task, payload: None })),
            None => None,
        }
    }

    /// Says that the running task has ended. Its frame leaves the stack, and
    /// the next in line starts if its priority is above the level of what was
    /// below; otherwise what was below goes on. `None`, and nothing changes,
    /// where the frame on top is not a task's.
    pub fn complete(&mut self) -> (r: Option<Next>)
        ensures
            final(self)@.timers == old(self)@.timers,
            final(self)@.work == completed(old(self)@.work),
            r == completed_as(old(self)@.work),
    {
        let (timers, mut dispatcher) = self.parts();
        let ghost before = Plan { timers: timers@, work: dispatcher@ };
        let r = dispatcher.complete();
        proof {
            let after = Plan { timers: timers@, work: dispatcher@ };
            assert forall|task: TaskId| #[trigger]
                outstanding(after, task) <= capacity_of(task) by {
                assert(outstanding(before, task) <= capacity_of(task));
                lemma_settle_pending(
                    State { stack: before.work.stack.drop_last(), ready: before.work.ready },
                    task,
                );
            }
        }
        *self = Scheduler { timers, dispatcher };
        r
    }

    /// Takes a lock with the given ceiling: until it is given back, the
    /// processor runs at the ceiling, or at its level if that is higher.
    pub fn raise(&mut self, ceiling: u8)
        ensures
            final(self)@.timers == old(self)@.timers,
            final(self)@.work == raised(old(self)@.work, ceiling),
    {
        let (timers, mut dispatcher) = self.parts();
        let ghost before = Plan { timers: timers@, work: dispatcher@ };
        dispatcher.raise(ceiling);
        proof {
            let after = Plan { timers: timers@, work: dispatcher@ };
            assert forall|task: TaskId| #[trigger]
                outstanding(after, task) <= capacity_of(task) by {
                assert(outstanding(before, task) <= capacity_of(task));
            }
        }
        *self = Scheduler { timers, dispatcher };
    }

    /// Gives back the lock taken last. Its frame leaves the stack, and the next
    /// in line starts if its priority is above the level of what was below.
    /// `None`, and nothing changes, where the frame on top is not a lock's.
    pub fn restore(&mut self) -> (r: Option<Next>)
        ensures
            final(self)@.timers == old(self)@.timers,
            final(self)@.work == restored(old(self)@.work),
            r == restored_as(old(self)@.work),
    {
        let (timers, mut dispatcher) = self.parts();
        let ghost before = Plan { timers: timers@, work: dispatcher@ };
        let r = dispatcher.restore();
        proof {
            let after = Plan { timers: timers@, work: dispatcher@ };
            assert forall|task: TaskId| #[trigger]
                outstanding(after, task) <= capacity_of(task) by {
                assert(outstanding(before, task) <= capacity_of(task));
                lemma_settle_pending(
                    State { stack: before.work.stack.drop_last(), ready: before.work.ready },
                    task,
                );
            }
        }
        *self = Scheduler { timers, dispatcher };
        r
    }

    /// The level at which the processor runs. Nothing that waits has a
    /// priority above it, and no task is over its room.
    pub fn level(&self) -> (r: u8)
        ensures
            r == level_of(self@.work.stack),
            settled(self@.work),
            within_room(self@),
    {
        proof {
            use_type_invariant(self);
        }
        self.dispatcher.level()
    }

    /// The frame on top of the stack: what runs now.
    pub fn current(&self) -> (r: Option<Frame>)
        ensures
            r == if self@.work.stack.len() == 0 {
                None
            } else {
                Some(self@.work.stack.last())
            },
    {
        self.dispatcher.current()
    }

    /// How many frames are on the stack.
    pub fn depth(&self) -> (n: usize)
        ensures
            n == self@.work.stack.len(),
    {
        self.dispatcher.depth()
    }

    /// How many invocations wait for the processor.
    pub fn waiting(&self) -> (n: usize)
        ensures
            n == self@.work.ready.len(),
    {
        self.dispatcher.waiting()
    }

    /// How many entries wait for their instant. They stand in the order in
    /// which they fall due.
    pub fn pending(&self) -> (n: usize)
        ensures
            n == self@.timers.len(),
            n <= TOTAL_ROOM,
            sorted(self@.timers),
    {
        proof {
            use_type_invariant(self);
        }
        self.timers.len()
    }

    /// How many runs of `task` were asked for and have not started.
    pub fn outstanding_for(&self, task: TaskId) -> (n: usize)
        ensures
            n == outstanding(self@, task),
            n <= capacity_of(task),
    {
        proof {
            use_type_invariant(self);
            assert(outstanding(self@, task) <= capacity_of(task));
        }
        self.timers.booked_for(task) + self.dispatcher.waiting_for(task)
    }

    /// The instant for which the compare interrupt is to be armed.
    pub fn next_deadline(&self) -> (r: Option<Instant>)
        ensures
            r == armed_for(self@.timers),
    {
        self.timers.next_deadline()
    }

    /// The entries that wait for their instant, the first to fall due in
    /// front.
    pub fn entries(&self) -> (r: Vec<PendingSpawn>)
        ensures
            r@ == self@.timers,
    {
        self.timers.entries()
    }

    /// The entry that falls due first.
    pub fn head(&self) -> (r: Option<PendingSpawn>)
        ensures
            r == if self@.timers.len() == 0 {
                None
            } else {
                Some(self@.timers[0])
            },
    {
        self.timers.head()
    }
}

} // verus!
