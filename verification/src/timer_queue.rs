//! The timer queue: runs of tasks that were asked for at a later instant, kept
//! in the order in which they fall due. Entries due at the same instant keep
//! the order in which they came. A task has room for so many runs that have
//! not started; a request beyond that is dropped.

use crate::clock::{deadline, deadline_of, Duration, Instant};
use crate::dispatcher::{lemma_pending_concat, pending};
use crate::task::{capacity, capacity_of, Invocation, Payload, PendingSpawn, TaskId};
use vstd::prelude::*;

verus! {

/// What became of a request to run a task later.
#[derive(Clone, Copy, Debug, PartialEq, Eq, Structural)]
pub enum Scheduled {
    /// Stored, and due before everything else: the compare interrupt is to be
    /// armed for this instant.
    Armed(Instant),
    /// Stored behind an earlier entry: the compare interrupt stays as it is.
    Kept,
    /// The queue was full, or as many runs of the task were asked for already
    /// as the task has room for: nothing was stored.
    Dropped,
}

/// No entry is due before one that stands in front of it.
pub open spec fn sorted(q: Seq<PendingSpawn>) -> bool {
    forall|i: int, j: int| 0 <= i <= j < q.len() ==> q[i].due.ticks <= q[j].due.ticks
}

/// How many entries at the front of `q` are due at or before `ticks`.
pub open spec fn due_count(q: Seq<PendingSpawn>, ticks: u64) -> nat
    decreases q.len(),
{
    if q.len() == 0 || q[0].due.ticks > ticks {
        0
    } else {
        1 + due_count(q.skip(1), ticks)
    }
}

/// The queue with one more entry: it goes behind every entry that is due at or
/// before its own instant, and in front of the others.
pub open spec fn inserted(q: Seq<PendingSpawn>, entry: PendingSpawn) -> Seq<PendingSpawn> {
    q.insert(due_count(q, entry.due.ticks) as int, entry)
}

/// The invocation that a pending entry asks for.
pub open spec fn invocation_of(entry: PendingSpawn) -> Invocation {
    Invocation { task: entry.task, payload: entry.payload }
}

/// The invocations that a run of pending entries asks for, in their order.
pub open spec fn invocations_of(entries: Seq<PendingSpawn>) -> Seq<Invocation> {
    Seq::new(entries.len(), |i: int| invocation_of(entries[i]))
}

/// How many entries of the queue ask for `task`.
pub open spec fn booked(q: Seq<PendingSpawn>, task: TaskId) -> nat {
    pending(invocations_of(q), task)
}

/// Whether a request for `task` is stored: the queue is not full, and fewer
/// runs of the task are asked for already, in the queue and among the
/// `waiting` ones outside it, than the task has room for.
pub open spec fn has_room(q: Seq<PendingSpawn>, limit: nat, waiting: nat, task: TaskId) -> bool {
    q.len() < limit && booked(q, task) + waiting < capacity_of(task)
}

/// The queue after a request: where there is no room it stays as it is.
pub open spec fn spawned(
    q: Seq<PendingSpawn>,
    limit: nat,
    waiting: nat,
    entry: PendingSpawn,
) -> Seq<PendingSpawn> {
    if has_room(q, limit, waiting, entry.task) {
        inserted(q, entry)
    } else {
        q
    }
}

/// What the caller is told after a request.
pub open spec fn scheduled_as(
    q: Seq<PendingSpawn>,
    limit: nat,
    waiting: nat,
    entry: PendingSpawn,
) -> Scheduled {
    if !has_room(q, limit, waiting, entry.task) {
        Scheduled::Dropped
    } else if due_count(q, entry.due.ticks) == 0 {
        Scheduled::Armed(entry.due)
    } else {
        Scheduled::Kept
    }
}

/// The instant for which the compare interrupt is armed: that of the first
/// entry.
pub open spec fn armed_for(q: Seq<PendingSpawn>) -> Option<Instant> {
    if q.len() == 0 {
        None
    } else {
        Some(q[0].due)
    }
}

/// The queue that a run of requests builds, starting from nothing.
pub open spec fn queued(arrivals: Seq<PendingSpawn>) -> Seq<PendingSpawn>
    decreases arrivals.len(),
{
    if arrivals.len() == 0 {
        Seq::empty()
    } else {
        inserted(queued(arrivals.drop_last()), arrivals.last())
    }
}

/// For each place in `queued(arrivals)`, which of the arrivals stands there.
pub open spec fn arrival_order(arrivals: Seq<PendingSpawn>) -> Seq<int>
    decreases arrivals.len(),
{
    if arrivals.len() == 0 {
        Seq::empty()
    } else {
        arrival_order(arrivals.drop_last()).insert(
            due_count(queued(arrivals.drop_last()), arrivals.last().due.ticks) as int,
            arrivals.len() - 1,
        )
    }
}

/// `due_count` stops at the first entry that is due later; in a sorted queue
/// everything from there on is due later.
pub proof fn lemma_due_count(q: Seq<PendingSpawn>, ticks: u64)
    ensures
        due_count(q, ticks) <= q.len(),
        forall|i: int| 0 <= i < due_count(q, ticks) ==> q[i].due.ticks <= ticks,
        due_count(q, ticks) < q.len() ==> q[due_count(q, ticks) as int].due.ticks > ticks,
        sorted(q) ==> forall|i: int| due_count(q, ticks) <= i < q.len() ==> q[i].due.ticks > ticks,
    decreases q.len(),
{
    if q.len() == 0 || q[0].due.ticks > ticks {
    } else {
        let t = q.skip(1);
        lemma_due_count(t, ticks);
        let k = due_count(t, ticks) as int;
        assert forall|i: int| 0 <= i < k + 1 implies q[i].due.ticks <= ticks by {
            if i > 0 {
                assert(q[i] == t[i - 1]);
            }
        }
        if k + 1 < q.len() {
            assert(q[k + 1] == t[k]);
        }
    }
    if sorted(q) {
        let k = due_count(q, ticks) as int;
        assert forall|i: int| k <= i < q.len() implies q[i].due.ticks > ticks by {
            assert(q[k].due.ticks <= q[i].due.ticks);
        }
    }
}

/// Inserting keeps the queue sorted.
pub proof fn lemma_inserted_sorted(q: Seq<PendingSpawn>, entry: PendingSpawn)
    requires
        sorted(q),
    ensures
        sorted(inserted(q, entry)),
        inserted(q, entry).len() == q.len() + 1,
{
    lemma_due_count(q, entry.due.ticks);
    let k = due_count(q, entry.due.ticks) as int;
    let r = inserted(q, entry);
    assert forall|i: int, j: int| 0 <= i <= j < r.len() implies r[i].due.ticks
        <= r[j].due.ticks by {
        if i < k {
            assert(r[i] == q[i]);
        } else if i > k {
            assert(r[i] == q[i - 1]);
        }
        if j < k {
            assert(r[j] == q[j]);
        } else if j > k {
            assert(r[j] == q[j - 1]);
        }
    }
}

/// Taking the due entries off the front leaves a sorted queue of entries that
/// are all due later.
pub proof fn lemma_split_due(q: Seq<PendingSpawn>, ticks: u64)
    requires
        sorted(q),
    ensures
        sorted(q.take(due_count(q, ticks) as int)),
        sorted(q.skip(due_count(q, ticks) as int)),
        forall|i: int|
            0 <= i < q.skip(due_count(q, ticks) as int).len() ==> q.skip(
                due_count(q, ticks) as int,
            )[i].due.ticks > ticks,
        due_count(q.skip(due_count(q, ticks) as int), ticks) == 0,
{
    lemma_due_count(q, ticks);
}

/// The entries on both sides of a place in the queue are all its entries.
pub proof fn lemma_booked_split(q: Seq<PendingSpawn>, at: int, task: TaskId)
    requires
        0 <= at <= q.len(),
    ensures
        booked(q, task) == booked(q.take(at), task) + booked(q.skip(at), task),
{
    assert(invocations_of(q) =~= invocations_of(q.take(at)) + invocations_of(q.skip(at)));
    lemma_pending_concat(invocations_of(q.take(at)), invocations_of(q.skip(at)), task);
}

/// A stored entry is counted for its task and for no other.
pub proof fn lemma_booked_inserted(q: Seq<PendingSpawn>, entry: PendingSpawn, task: TaskId)
    ensures
        booked(inserted(q, entry), task) == booked(q, task) + if entry.task == task {
            1nat
        } else {
            0nat
        },
{
    lemma_due_count(q, entry.due.ticks);
    let at = due_count(q, entry.due.ticks) as int;
    let front = invocations_of(q.take(at));
    let one = seq![invocation_of(entry)];
    let back = invocations_of(q.skip(at));
    lemma_booked_split(q, at, task);
    assert(invocations_of(inserted(q, entry)) =~= (front + one) + back);
    lemma_pending_concat(front + one, back, task);
    lemma_pending_concat(front, one, task);
    assert(pending(one, task) == if entry.task == task {
        1nat
    } else {
        0nat
    }) by {
        reveal_with_fuel(pending, 2);
        assert(one.drop_last() =~= Seq::<Invocation>::empty());
    }
}

/// A tie keeps the order of arrival: of two entries asked for one after the
/// other, the second not due before the first, the first stands in front of
/// the second, whatever the queue held.
pub proof fn law_tie_keeps_arrival_order(
    q: Seq<PendingSpawn>,
    first: PendingSpawn,
    second: PendingSpawn,
)
    requires
        sorted(q),
        first.due.ticks <= second.due.ticks,
    ensures
        ({
            let once = inserted(q, first);
            let twice = inserted(once, second);
            let i = due_count(q, first.due.ticks) as int;
            let j = due_count(once, second.due.ticks) as int;
            &&& 0 <= i < j < twice.len()
            &&& twice[i] == first
            &&& twice[j] == second
            &&& sorted(twice)
        }),
{
    lemma_due_count(q, first.due.ticks);
    lemma_inserted_sorted(q, first);
    let once = inserted(q, first);
    let i = due_count(q, first.due.ticks) as int;
    assert(once[i] == first);
    lemma_due_count(once, second.due.ticks);
    lemma_inserted_sorted(once, second);
    let j = due_count(once, second.due.ticks) as int;
    if j <= i {
        assert(once[i].due.ticks > second.due.ticks);
    }
}

/// The order of dispatch: whatever the order in which entries were asked for,
/// the queue holds each of them once, no entry stands in front of one that is
/// due earlier, and of two entries due at the same instant the one asked for
/// first stands first.
pub proof fn law_dispatch_order(arrivals: Seq<PendingSpawn>)
    ensures
        sorted(queued(arrivals)),
        queued(arrivals).len() == arrivals.len(),
        arrival_order(arrivals).len() == arrivals.len(),
        forall|i: int|
            0 <= i < arrivals.len() ==> 0 <= #[trigger] arrival_order(arrivals)[i]
                < arrivals.len() && queued(arrivals)[i] == arrivals[arrival_order(arrivals)[i]],
        forall|i: int, j: int|
            0 <= i < j < arrivals.len() ==> {
                ||| queued(arrivals)[i].due.ticks < queued(arrivals)[j].due.ticks
                ||| (queued(arrivals)[i].due.ticks == queued(arrivals)[j].due.ticks
                    && #[trigger] arrival_order(arrivals)[i] < #[trigger] arrival_order(
                    arrivals,
                )[j])
            },
    decreases arrivals.len(),
{
    if arrivals.len() > 0 {
        let before = arrivals.drop_last();
        let entry = arrivals.last();
        law_dispatch_order(before);
        let q = queued(before);
        let o = arrival_order(before);
        lemma_due_count(q, entry.due.ticks);
        lemma_inserted_sorted(q, entry);
        let k = due_count(q, entry.due.ticks) as int;
        let r = queued(arrivals);
        let p = arrival_order(arrivals);
        let last = arrivals.len() - 1;
        assert(r == q.insert(k, entry));
        assert(p == o.insert(k, last));
        assert forall|i: int| 0 <= i < arrivals.len() implies 0 <= #[trigger] p[i]
            < arrivals.len() && r[i] == arrivals[p[i]] by {
            if i < k {
                assert(p[i] == o[i] && r[i] == q[i]);
                assert(before[o[i]] == arrivals[o[i]]);
            } else if i > k {
                assert(p[i] == o[i - 1] && r[i] == q[i - 1]);
                assert(before[o[i - 1]] == arrivals[o[i - 1]]);
            }
        }
        assert forall|i: int, j: int| 0 <= i < j < arrivals.len() implies {
            ||| r[i].due.ticks < r[j].due.ticks
            ||| (r[i].due.ticks == r[j].due.ticks && #[trigger] p[i] < #[trigger] p[j])
        } by {
            if i < k {
                assert(p[i] == o[i] && r[i] == q[i]);
            } else if i > k {
                assert(p[i] == o[i - 1] && r[i] == q[i - 1]);
            }
            if j < k {
                assert(p[j] == o[j] && r[j] == q[j]);
            } else if j > k {
                assert(p[j] == o[j - 1] && r[j] == q[j - 1]);
            }
        }
    }
}

/// A bounded queue of pending spawns.
pub struct TimerQueue {
    entries: Vec<PendingSpawn>,
    limit: usize,
}

impl TimerQueue {
    /// The pending entries, the first to fall due in front.
    pub closed spec fn view(&self) -> Seq<PendingSpawn> {
        self.entries@
    }

    /// The most entries that the queue holds.
    pub closed spec fn limit(&self) -> nat {
        self.limit as nat
    }

    #[verifier::type_invariant]
    spec fn well_formed(&self) -> bool {
        sorted(self.entries@) && self.entries@.len() <= self.limit
    }

    /// An empty queue that holds at most `limit` entries.
    pub fn new(limit: usize) -> (r: TimerQueue)
        ensures
            r@ == Seq::<PendingSpawn>::empty(),
            r.limit() == limit,
    {
        TimerQueue { entries: Vec::new(), limit }
    }

    /// How many entries are pending.
    pub fn len(&self) -> (n: usize)
        ensures
            n == self@.len(),
            n <= self.limit(),
            sorted(self@),
    {
        proof {
            use_type_invariant(self);
        }
        self.entries.len()
    }

    /// The most entries that the queue holds.
    pub fn capacity(&self) -> (n: usize)
        ensures
            n == self.limit(),
    {
        self.limit
    }

    /// The instant for which the compare interrupt is to be armed.
    pub fn next_deadline(&self) -> (r: Option<Instant>)
        ensures
            r == armed_for(self@),
    {
        if self.entries.len() == 0 {
            None
        } else {
            Some(self.entries[0].due)
        }
    }

    /// The entry at the front, which falls due first.
    pub fn head(&self) -> (r: Option<PendingSpawn>)
        ensures
            r == if self@.len() == 0 {
                None
            } else {
                Some(self@[0])
            },
    {
        if self.entries.len() == 0 {
            None
        } else {
            Some(self.entries[0])
        }
    }

    fn count_due(&self, ticks: u64) -> (k: usize)
        ensures
            k == due_count(self@, ticks),
            k <= self@.len(),
    {
        let mut k: usize = 0;
        assert(self.entries@.skip(0) =~= self.entries@);
        while k < self.entries.len() && self.entries[k].due.ticks <= ticks
            invariant
                k <= self.entries@.len(),
                due_count(self.entries@, ticks) == k + due_count(self.entries@.skip(k as int), ticks),
            decreases self.entries@.len() - k,
        {
            let ghost t = self.entries@.skip(k as int);
            assert(t[0] == self.entries@[k as int]);
            assert(t.skip(1) =~= self.entries@.skip(k + 1));
            k = k + 1;
        }
        proof {
            let t = self.entries@.skip(k as int);
            if k < self.entries@.len() {
                assert(t[0] == self.entries@[k as int]);
            }
        }
        k
    }

    /// The pending entries, the first to fall due in front.
    pub fn entries(&self) -> (r: Vec<PendingSpawn>)
        ensures
            r@ == self@,
    {
        let mut r: Vec<PendingSpawn> = Vec::new();
        let mut i: usize = 0;
        while i < self.entries.len()
            invariant
                i <= self.entries@.len(),
                r@ == self.entries@.take(i as int),
            decreases self.entries@.len() - i,
        {
            r.push(self.entries[i]);
            assert(r@ =~= self.entries@.take(i + 1));
            i = i + 1;
        }
        assert(self.entries@.take(i as int) =~= self.entries@);
        r
    }

    /// How many entries ask for `task`.
    pub fn booked_for(&self, task: TaskId) -> (n: usize)
        ensures
            n == booked(self@, task),
            n <= self@.len(),
    {
        let mut n: usize = 0;
        let mut i: usize = 0;
        assert(invocations_of(self.entries@.take(0)) =~= Seq::<Invocation>::empty());
        while i < self.entries.len()
            invariant
                i <= self.entries@.len(),
                n <= i,
                n == booked(self.entries@.take(i as int), task),
            decreases self.entries@.len() - i,
        {
            assert(invocations_of(self.entries@.take(i + 1)).drop_last() =~= invocations_of(
                self.entries@.take(i as int),
            ));
            if self.entries[i].task == task {
                n = n + 1;
            }
            i = i + 1;
        }
        assert(self.entries@.take(i as int) =~= self.entries@);
        n
    }

    /// Asks for `task` to run once `duration` has passed since `now`. The entry
    /// goes behind every entry due at or before its deadline. `waiting` says
    /// how many invocations of the task wait for the processor already. The
    /// request is dropped where the queue is full, and where the entries for
    /// the task and its waiting invocations fill the task's room.
    pub fn spawn_after(
        &mut self,
        now: Instant,
        task: TaskId,
        duration: Duration,
        payload: Option<Payload>,
        waiting: usize,
    ) -> (r: Scheduled)
        ensures
            final(self).limit() == old(self).limit(),
            final(self)@ == spawned(
                old(self)@,
                old(self).limit(),
                waiting as nat,
                (PendingSpawn { task, due: deadline_of(now, duration), payload }),
            ),
            r == scheduled_as(
                old(self)@,
                old(self).limit(),
                waiting as nat,
                (PendingSpawn { task, due: deadline_of(now, duration), payload }),
            ),
            r == Scheduled::Dropped <==> !has_room(
                old(self)@,
                old(self).limit(),
                waiting as nat,
                task,
            ),
            sorted(final(self)@),
            final(self)@.len() <= final(self).limit(),
    {
        proof {
            use_type_invariant(&*self);
        }
        let entry = PendingSpawn { task, due: deadline(now, duration), payload };
        let room = capacity(task);
        if self.entries.len() >= self.limit || waiting >= room {
            return Scheduled::Dropped;
        }
        if self.booked_for(task) >= room - waiting {
            return Scheduled::Dropped;
        }
        let k = self.count_due(entry.due.ticks);
        proof {
            lemma_inserted_sorted(self.entries@, entry);
        }
        let mut entries: Vec<PendingSpawn> = Vec::new();
        core::mem::swap(&mut entries, &mut self.entries);
        entries.insert(k, entry);
        self.entries = entries;
        if k == 0 {
            Scheduled::Armed(entry.due)
        } else {
            Scheduled::Kept
        }
    }

    /// Takes off the front every entry that is due at `now`, in queue order.
    pub fn pop_due(&mut self, now: Instant) -> (due: Vec<PendingSpawn>)
        ensures
            final(self).limit() == old(self).limit(),
            due@.len() == due_count(old(self)@, now.ticks) <= old(self)@.len(),
            due@ == old(self)@.take(due_count(old(self)@, now.ticks) as int),
            final(self)@ == old(self)@.skip(due_count(old(self)@, now.ticks) as int),
            forall|i: int| 0 <= i < due@.len() ==> due@[i].due.ticks <= now.ticks,
            forall|i: int| 0 <= i < final(self)@.len() ==> final(self)@[i].due.ticks > now.ticks,
            sorted(due@),
            sorted(final(self)@),
    {
        proof {
            use_type_invariant(&*self);
            lemma_split_due(self.entries@, now.ticks);
            lemma_due_count(self.entries@, now.ticks);
        }
        let k = self.count_due(now.ticks);
        let mut due: Vec<PendingSpawn> = Vec::new();
        core::mem::swap(&mut due, &mut self.entries);
        let rest = due.split_off(k);
        assert(rest@ =~= old(self)@.skip(k as int));
        assert(due@ =~= old(self)@.take(k as int));
        self.entries = rest;
        due
    }
}

} // verus!
