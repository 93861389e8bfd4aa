//! The dispatcher: which task runs, which tasks wait, and which task a
//! running one has pushed aside.
//!
//! Priorities are static. An invocation starts at once where its priority is
//! above the level at which the processor runs; otherwise it waits, first come
//! first served among equals. A task runs to its end; what it pushed aside goes
//! on only then. A held lock raises the level to the lock's ceiling.

use crate::task::{
    capacity, capacity_of, priority, priority_of, Invocation, TaskId, IDLE_PRIORITY, TOTAL_ROOM,
};
use vstd::prelude::*;

verus! {

/// What a place on the stack of running work stands for.
#[derive(Clone, Copy, Debug, PartialEq, Eq, Structural)]
pub enum FrameKind {
    /// The body of a task.
    Task(Invocation),
    /// A critical section of the work below it.
    Lock,
}

/// A place on the stack, with the level at which the processor runs while it is
/// on top.
#[derive(Clone, Copy, Debug, PartialEq, Eq, Structural)]
pub struct Frame {
    /// What the frame stands for.
    pub kind: FrameKind,
    /// The level while the frame is on top.
    pub level: u8,
}

/// What became of a dispatch.
#[derive(Clone, Copy, Debug, PartialEq, Eq, Structural)]
pub enum Dispatched {
    /// The invocation pushed the running work aside and runs now.
    Started,
    /// The invocation waits.
    Queued,
    /// As many invocations of the task wait as it has room for: this one is
    /// gone.
    Dropped,
}

/// What goes on after a task has ended or a lock was given back.
#[derive(Clone, Copy, Debug, PartialEq, Eq, Structural)]
pub enum Next {
    /// This invocation starts now.
    Start(Invocation),
    /// What was pushed aside goes on.
    Resume,
    /// Nothing is left to run but the background loop.
    Idle,
}

/// Something that happens to a dispatcher.
pub enum Op {
    /// An invocation is dispatched.
    Dispatch(Invocation),
    /// A batch of invocations that fell due together is dispatched.
    Batch(Seq<Invocation>),
    /// The running task ends.
    Complete,
    /// The running work takes a lock with this ceiling.
    Raise(u8),
    /// The running work gives its lock back.
    Restore,
}

/// The dispatcher as the contracts see it.
pub struct State {
    /// The running work: the last frame runs, each frame below was pushed
    /// aside by the one above it.
    pub stack: Seq<Frame>,
    /// The invocations that wait, in the order in which they came.
    pub ready: Seq<Invocation>,
}

/// The frame of a task's body.
pub open spec fn task_frame(inv: Invocation) -> Frame {
    Frame { kind: FrameKind::Task(inv), level: priority_of(inv.task) }
}

/// The level at which the processor runs.
pub open spec fn level_of(stack: Seq<Frame>) -> u8 {
    if stack.len() == 0 {
        IDLE_PRIORITY
    } else {
        stack.last().level
    }
}

/// How many invocations of `task` wait.
pub open spec fn pending(ready: Seq<Invocation>, task: TaskId) -> nat
    decreases ready.len(),
{
    if ready.len() == 0 {
        0
    } else {
        pending(ready.drop_last(), task) + if ready.last().task == task {
            1nat
        } else {
            0nat
        }
    }
}

/// The place of the waiting invocation that is next in line: the first of
/// those with the highest priority.
pub open spec fn best(ready: Seq<Invocation>) -> Option<int>
    decreases ready.len(),
{
    if ready.len() == 0 {
        None
    } else {
        match best(ready.drop_last()) {
            Some(b) => if priority_of(ready.last().task) > priority_of(ready[b].task) {
                Some(ready.len() - 1)
            } else {
                Some(b)
            },
            None => Some(ready.len() - 1),
        }
    }
}

/// The invocation that starts where the dispatcher is left to itself: the next
/// in line, if its priority is above the level.
pub open spec fn chosen(s: State) -> Option<Invocation> {
    match best(s.ready) {
        Some(b) => if priority_of(s.ready[b].task) > level_of(s.stack) {
            Some(s.ready[b])
        } else {
            None
        },
        None => None,
    }
}

/// The state once the chosen invocation, if there is one, has started.
pub open spec fn settle(s: State) -> State {
    match best(s.ready) {
        Some(b) => if priority_of(s.ready[b].task) > level_of(s.stack) {
            State { stack: s.stack.push(task_frame(s.ready[b])), ready: s.ready.remove(b) }
        } else {
            s
        },
        None => s,
    }
}

/// Whether there is room for one more invocation of the task.
pub open spec fn accepted(s: State, inv: Invocation) -> bool {
    pending(s.ready, inv.task) < capacity_of(inv.task)
}

/// The state with the invocation waiting, if there is room for it.
pub open spec fn submitted(s: State, inv: Invocation) -> State {
    if accepted(s, inv) {
        State { stack: s.stack, ready: s.ready.push(inv) }
    } else {
        s
    }
}

/// The state with each of the invocations waiting, in turn, that there is room
/// for.
pub open spec fn submitted_all(s: State, invs: Seq<Invocation>) -> State
    decreases invs.len(),
{
    if invs.len() == 0 {
        s
    } else {
        submitted(submitted_all(s, invs.drop_last()), invs.last())
    }
}

/// The state after a dispatch.
pub open spec fn dispatched(s: State, inv: Invocation) -> State {
    settle(submitted(s, inv))
}

/// What the caller is told after a dispatch.
pub open spec fn dispatched_as(s: State, inv: Invocation) -> Dispatched {
    if !accepted(s, inv) {
        Dispatched::Dropped
    } else if chosen(submitted(s, inv)) is Some {
        Dispatched::Started
    } else {
        Dispatched::Queued
    }
}

/// Whether the frame on top is the body of a task.
pub open spec fn runs_task(s: State) -> bool {
    s.stack.len() > 0 && s.stack.last().kind is Task
}

/// Whether the frame on top is a critical section.
pub open spec fn holds_lock(s: State) -> bool {
    s.stack.len() > 0 && s.stack.last().kind is Lock
}

/// The state after the running task has ended. Where no task runs, nothing
/// changes.
pub open spec fn completed(s: State) -> State {
    if runs_task(s) {
        settle(State { stack: s.stack.drop_last(), ready: s.ready })
    } else {
        s
    }
}

/// The state with a lock taken: the level is the ceiling, or stays where it
/// was if that is higher.
pub open spec fn raised(s: State, ceiling: u8) -> State {
    State {
        stack: s.stack.push(
            Frame {
                kind: FrameKind::Lock,
                level: if ceiling > level_of(s.stack) {
                    ceiling
                } else {
                    level_of(s.stack)
                },
            },
        ),
        ready: s.ready,
    }
}

/// The state after the lock on top was given back. Where no lock is on top,
/// nothing changes.
pub open spec fn restored(s: State) -> State {
    if holds_lock(s) {
        settle(State { stack: s.stack.drop_last(), ready: s.ready })
    } else {
        s
    }
}

/// What goes on in a state that has just been settled after a frame left.
pub open spec fn next_of(before: State, after: State) -> Next {
    match chosen(before) {
        Some(inv) => Next::Start(inv),
        None => if after.stack.len() == 0 {
            Next::Idle
        } else {
            Next::Resume
        },
    }
}

/// What the caller is told after the running task has ended.
pub open spec fn completed_as(s: State) -> Option<Next> {
    if runs_task(s) {
        Some(next_of((State { stack: s.stack.drop_last(), ready: s.ready }), completed(s)))
    } else {
        None
    }
}

/// What the caller is told after the lock on top was given back.
pub open spec fn restored_as(s: State) -> Option<Next> {
    if holds_lock(s) {
        Some(next_of((State { stack: s.stack.drop_last(), ready: s.ready }), restored(s)))
    } else {
        None
    }
}

/// The state after one thing has happened.
pub open spec fn applied(s: State, op: Op) -> State {
    match op {
        Op::Dispatch(inv) => dispatched(s, inv),
        Op::Batch(invs) => settle(submitted_all(s, invs)),
        Op::Complete => completed(s),
        Op::Raise(ceiling) => raised(s, ceiling),
        Op::Restore => restored(s),
    }
}

/// The state after a run of things has happened.
pub open spec fn ran(s: State, ops: Seq<Op>) -> State
    decreases ops.len(),
{
    if ops.len() == 0 {
        s
    } else {
        applied(ran(s, ops.drop_last()), ops.last())
    }
}

/// Nothing waits that could push the running work aside.
pub open spec fn settled(s: State) -> bool {
    forall|i: int| 0 <= i < s.ready.len() ==> priority_of(s.ready[i].task) <= level_of(s.stack)
}

/// No task has more invocations waiting than it has room for.
pub open spec fn within_capacity(ready: Seq<Invocation>) -> bool {
    forall|task: TaskId| #[trigger] pending(ready, task) <= capacity_of(task)
}

/// `best` names the first of the invocations with the highest priority.
pub proof fn lemma_best(ready: Seq<Invocation>)
    ensures
        ready.len() == 0 <==> best(ready) is None,
        best(ready) matches Some(b) ==> {
            &&& 0 <= b < ready.len()
            &&& forall|i: int|
                0 <= i < ready.len() ==> priority_of(ready[i].task) <= priority_of(ready[b].task)
            &&& forall|i: int| 0 <= i < b ==> priority_of(ready[i].task) < priority_of(ready[b].task)
        },
    decreases ready.len(),
{
    if ready.len() > 0 {
        lemma_best(ready.drop_last());
        let front = ready.drop_last();
        match best(front) {
            Some(b) => {
                assert forall|i: int| 0 <= i < ready.len() implies priority_of(
                    (#[trigger] ready[i]).task,
                ) <= priority_of(ready[best(ready).unwrap()].task) by {
                    if i < front.len() {
                        assert(front[i] == ready[i]);
                    }
                }
                assert forall|i: int| 0 <= i < best(ready).unwrap() implies priority_of(
                    (#[trigger] ready[i]).task,
                ) < priority_of(ready[best(ready).unwrap()].task) by {
                    assert(front[i] == ready[i]);
                }
            },
            None => {},
        }
    }
}

/// Taking one invocation out of the line takes one off the count of its task
/// and leaves the other counts alone.
pub proof fn lemma_pending_remove(ready: Seq<Invocation>, at: int, task: TaskId)
    requires
        0 <= at < ready.len(),
    ensures
        pending(ready.remove(at), task) + (if ready[at].task == task {
            1nat
        } else {
            0nat
        }) == pending(ready, task),
    decreases ready.len(),
{
    if at == ready.len() - 1 {
        assert(ready.remove(at) =~= ready.drop_last());
    } else {
        lemma_pending_remove(ready.drop_last(), at, task);
        assert(ready.remove(at).drop_last() =~= ready.drop_last().remove(at));
        assert(ready.remove(at).last() == ready.last());
    }
}

/// The count over two runs of invocations is the sum of the counts.
pub proof fn lemma_pending_concat(a: Seq<Invocation>, b: Seq<Invocation>, task: TaskId)
    ensures
        pending(a + b, task) == pending(a, task) + pending(b, task),
    decreases b.len(),
{
    if b.len() == 0 {
        assert(a + b =~= a);
    } else {
        lemma_pending_concat(a, b.drop_last(), task);
        assert((a + b).drop_last() =~= a + b.drop_last());
        assert((a + b).last() == b.last());
    }
}

/// The counts of all tasks.
pub open spec fn pending_all(ready: Seq<Invocation>) -> nat {
    pending(ready, TaskId::CommandRx) + pending(ready, TaskId::ButtonClick) + pending(
        ready,
        TaskId::OnGpiote,
    ) + pending(ready, TaskId::Parse) + pending(ready, TaskId::Blink) + pending(
        ready,
        TaskId::Send,
    ) + pending(ready, TaskId::BlinkLed) + pending(ready, TaskId::ChangePwm) + pending(
        ready,
        TaskId::SendCommand,
    ) + pending(ready, TaskId::SendingBlink) + pending(ready, TaskId::SendingBuffer) + pending(
        ready,
        TaskId::Alternate,
    ) + pending(ready, TaskId::Light) + pending(ready, TaskId::Pace)
}

/// Every invocation is counted for one task, so the counts add up to the
/// length; where no task is over its capacity, the length is within the room
/// of all tasks together.
pub proof fn lemma_pending_all(ready: Seq<Invocation>)
    ensures
        pending_all(ready) == ready.len(),
        within_capacity(ready) ==> ready.len() <= TOTAL_ROOM,
    decreases ready.len(),
{
    if ready.len() > 0 {
        lemma_pending_all(ready.drop_last());
    }
    if within_capacity(ready) {
        assert(pending(ready, TaskId::CommandRx) <= capacity_of(TaskId::CommandRx));
        assert(pending(ready, TaskId::ButtonClick) <= capacity_of(TaskId::ButtonClick));
        assert(pending(ready, TaskId::OnGpiote) <= capacity_of(TaskId::OnGpiote));
        assert(pending(ready, TaskId::Parse) <= capacity_of(TaskId::Parse));
        assert(pending(ready, TaskId::Blink) <= capacity_of(TaskId::Blink));
        assert(pending(ready, TaskId::Send) <= capacity_of(TaskId::Send));
        assert(pending(ready, TaskId::BlinkLed) <= capacity_of(TaskId::BlinkLed));
        assert(pending(ready, TaskId::ChangePwm) <= capacity_of(TaskId::ChangePwm));
        assert(pending(ready, TaskId::SendCommand) <= capacity_of(TaskId::SendCommand));
        assert(pending(ready, TaskId::SendingBlink) <= capacity_of(TaskId::SendingBlink));
        assert(pending(ready, TaskId::SendingBuffer) <= capacity_of(TaskId::SendingBuffer));
        assert(pending(ready, TaskId::Alternate) <= capacity_of(TaskId::Alternate));
        assert(pending(ready, TaskId::Light) <= capacity_of(TaskId::Light));
        assert(pending(ready, TaskId::Pace) <= capacity_of(TaskId::Pace));
    }
}

/// Where every task has room for all of its invocations in a batch, the whole
/// batch joins the line, in its order.
pub proof fn lemma_submitted_all_with_room(s: State, invs: Seq<Invocation>)
    requires
        forall|task: TaskId|
            pending(s.ready, task) + #[trigger] pending(invs, task) <= capacity_of(task),
    ensures
        submitted_all(s, invs) == (State { stack: s.stack, ready: s.ready + invs }),
    decreases invs.len(),
{
    if invs.len() == 0 {
        assert(s.ready + invs =~= s.ready);
    } else {
        let front = invs.drop_last();
        let last = invs.last();
        assert forall|task: TaskId|
            pending(s.ready, task) + #[trigger] pending(front, task) <= capacity_of(task) by {
            assert(pending(s.ready, task) + pending(invs, task) <= capacity_of(task));
        }
        lemma_submitted_all_with_room(s, front);
        lemma_pending_concat(s.ready, front, last.task);
        assert(pending(s.ready, last.task) + pending(invs, last.task) <= capacity_of(last.task));
        assert((s.ready + front).push(last) =~= s.ready + invs);
    }
}

/// Settling leaves nothing waiting that could push the running work aside,
/// and no task with more waiting than before.
pub proof fn lemma_settle(s: State)
    ensures
        settled(settle(s)),
        within_capacity(s.ready) ==> within_capacity(settle(s).ready),
        settled(s) ==> settle(s) == s,
        settle(s).stack == match chosen(s) {
            Some(inv) => s.stack.push(task_frame(inv)),
            None => s.stack,
        },
{
    lemma_best(s.ready);
    match best(s.ready) {
        Some(b) => {
            if priority_of(s.ready[b].task) > level_of(s.stack) {
                let after = settle(s);
                assert forall|i: int| 0 <= i < after.ready.len() implies priority_of(
                    after.ready[i].task,
                ) <= level_of(after.stack) by {
                    if i < b {
                        assert(after.ready[i] == s.ready[i]);
                    } else {
                        assert(after.ready[i] == s.ready[i + 1]);
                    }
                }
                if within_capacity(s.ready) {
                    assert forall|task: TaskId| #[trigger]
                        pending(after.ready, task) <= capacity_of(task) by {
                        lemma_pending_remove(s.ready, b, task);
                        assert(pending(s.ready, task) <= capacity_of(task));
                    }
                }
            }
        },
        None => {},
    }
}

/// The dispatch rule: in a settled state a dispatched invocation starts if and
/// only if its priority is above the level, so that an equal priority never
/// pushes the running work aside. Otherwise it waits at the end of the line
/// if there is room, or is dropped.
pub proof fn law_dispatch_rule(s: State, inv: Invocation)
    requires
        settled(s),
    ensures
        dispatched(s, inv) == if !accepted(s, inv) {
            s
        } else if priority_of(inv.task) > level_of(s.stack) {
            State { stack: s.stack.push(task_frame(inv)), ready: s.ready }
        } else {
            State { stack: s.stack, ready: s.ready.push(inv) }
        },
        dispatched_as(s, inv) == if !accepted(s, inv) {
            Dispatched::Dropped
        } else if priority_of(inv.task) > level_of(s.stack) {
            Dispatched::Started
        } else {
            Dispatched::Queued
        },
        accepted(s, inv) && priority_of(inv.task) > level_of(s.stack) ==> chosen(submitted(s, inv))
            == Some(inv),
        settled(dispatched(s, inv)),
        within_capacity(s.ready) ==> within_capacity(dispatched(s, inv).ready),
{
    lemma_settle(s);
    if accepted(s, inv) {
        let t = submitted(s, inv);
        lemma_best(t.ready);
        lemma_best(s.ready);
        lemma_settle(t);
        assert(t.ready.drop_last() =~= s.ready);
        let b = best(t.ready).unwrap();
        if priority_of(inv.task) > level_of(s.stack) {
            if b < s.ready.len() {
                assert(t.ready[b] == s.ready[b]);
                assert(priority_of(t.ready[t.ready.len() - 1].task) <= priority_of(
                    t.ready[b].task,
                ));
            }
            assert(t.ready.remove(b) =~= s.ready);
        } else {
            if b < s.ready.len() {
                assert(t.ready[b] == s.ready[b]);
            }
        }
        if within_capacity(s.ready) {
            assert forall|task: TaskId| #[trigger]
                pending(t.ready, task) <= capacity_of(task) by {
                assert(pending(s.ready, task) <= capacity_of(task));
            }
        }
    }
}

/// A batch of one is a dispatch.
pub proof fn law_batch_of_one(s: State, inv: Invocation)
    ensures
        settle(submitted_all(s, seq![inv])) == dispatched(s, inv),
{
    reveal_with_fuel(submitted_all, 2);
    assert(seq![inv].drop_last() =~= Seq::<Invocation>::empty());
}

/// First come, first served: an invocation is not next in line while one
/// that came before it and has at least its priority waits.
pub proof fn law_first_come_first_served(ready: Seq<Invocation>, earlier: int, later: int)
    requires
        0 <= earlier < later < ready.len(),
        priority_of(ready[earlier].task) >= priority_of(ready[later].task),
    ensures
        best(ready) != Some(later),
{
    lemma_best(ready);
}

/// In a settled state no invocation waits of a task whose priority is above
/// the level, so there is room for one.
pub proof fn lemma_none_waits_above(s: State, task: TaskId)
    requires
        settled(s),
        priority_of(task) > level_of(s.stack),
    ensures
        pending(s.ready, task) == 0,
        pending(s.ready, task) < capacity_of(task),
    decreases s.ready.len(),
{
    if s.ready.len() > 0 {
        let front = State { stack: s.stack, ready: s.ready.drop_last() };
        assert forall|i: int| 0 <= i < front.ready.len() implies priority_of(
            (#[trigger] front.ready[i]).task,
        ) <= level_of(front.stack) by {
            assert(front.ready[i] == s.ready[i]);
        }
        lemma_none_waits_above(front, task);
        assert(priority_of(s.ready[s.ready.len() - 1].task) <= level_of(s.stack));
    }
}

/// Preemption: where an invocation of higher priority is dispatched while a
/// task runs, it starts at once, on top of that task. Whatever happens next,
/// the task below does not go on before a `Complete` has ended the invocation
/// that pushed it aside: either that invocation is still on the stack, with
/// all that was below it untouched, or there was a moment at which it was on
/// top and was completed.
pub proof fn law_preemption(s: State, high: Invocation, ops: Seq<Op>)
    requires
        settled(s),
        runs_task(s),
        priority_of(high.task) > level_of(s.stack),
    ensures
        dispatched(s, high).stack == s.stack.push(task_frame(high)),
        dispatched(s, high).ready == s.ready,
        dispatched_as(s, high) == Dispatched::Started,
        ({
            let after = ran(dispatched(s, high), ops);
            ||| (after.stack.len() > s.stack.len() && after.stack.take(s.stack.len() as int + 1)
                == s.stack.push(task_frame(high)))
            ||| exists|k: int|
                0 <= k < ops.len() && #[trigger] ops[k] is Complete && ran(
                    dispatched(s, high),
                    ops.take(k),
                ).stack == s.stack.push(task_frame(high))
        }),
    decreases ops.len(),
{
    lemma_none_waits_above(s, high.task);
    law_dispatch_rule(s, high);
    let start = dispatched(s, high);
    let n = s.stack.len() as int;
    let goal = s.stack.push(task_frame(high));
    if ops.len() == 0 {
        assert(start.stack.take(n + 1) =~= goal);
    } else {
        let front = ops.drop_last();
        law_preemption(s, high, front);
        let mid = ran(start, front);
        let after = ran(start, ops);
        if mid.stack.len() > n && mid.stack.take(n + 1) == goal {
            lemma_applied_keeps(mid, ops.last(), n + 1);
            if after.stack.len() > n && after.stack.take(n + 1) == goal {
            } else {
                let k = ops.len() - 1;
                assert(ops.take(k) =~= front);
                assert(mid.stack =~= mid.stack.take(n + 1));
                assert(ops[k] is Complete);
            }
        } else {
            let k = choose|k: int|
                0 <= k < front.len() && #[trigger] front[k] is Complete && ran(
                    start,
                    front.take(k),
                ).stack == goal;
            assert(ops.take(k) =~= front.take(k));
            assert(ops[k] == front[k]);
        }
    }
}

/// Putting invocations in the line leaves the stack as it is.
pub proof fn lemma_submitted_all_keeps_stack(s: State, invs: Seq<Invocation>)
    ensures
        submitted_all(s, invs).stack == s.stack,
    decreases invs.len(),
{
    if invs.len() > 0 {
        lemma_submitted_all_keeps_stack(s, invs.drop_last());
    }
}

/// One thing that happens leaves the lowest `depth` frames of a deeper stack
/// as they are; those of a stack exactly that deep change only where its top
/// frame leaves, by a `Complete` that ends a task or a `Restore` that gives a
/// lock back.
pub proof fn lemma_applied_keeps(s: State, op: Op, depth: int)
    requires
        0 < depth <= s.stack.len(),
    ensures
        ({
            let after = applied(s, op);
            ||| (after.stack.len() >= depth && after.stack.take(depth) == s.stack.take(depth))
            ||| (s.stack.len() == depth && op is Complete && s.stack.last().kind is Task)
            ||| (s.stack.len() == depth && op is Restore && s.stack.last().kind is Lock)
        }),
{
    let after = applied(s, op);
    match op {
        Op::Dispatch(inv) => {
            let t = submitted(s, inv);
            lemma_settle(t);
            assert(after.stack.take(depth) =~= s.stack.take(depth));
        },
        Op::Batch(invs) => {
            let t = submitted_all(s, invs);
            lemma_submitted_all_keeps_stack(s, invs);
            lemma_settle(t);
            assert(after.stack.take(depth) =~= s.stack.take(depth));
        },
        Op::Complete => {
            if runs_task(s) {
                let t = State { stack: s.stack.drop_last(), ready: s.ready };
                lemma_settle(t);
                if s.stack.len() > depth {
                    assert(after.stack.take(depth) =~= s.stack.take(depth));
                }
            }
        },
        Op::Raise(ceiling) => {
            assert(after.stack.take(depth) =~= s.stack.take(depth));
        },
        Op::Restore => {
            if holds_lock(s) {
                let t = State { stack: s.stack.drop_last(), ready: s.ready };
                lemma_settle(t);
                if s.stack.len() > depth {
                    assert(after.stack.take(depth) =~= s.stack.take(depth));
                }
            }
        },
    }
}

/// The ceiling: while a lock is held, no invocation starts whose priority is
/// not above the lock's ceiling. It waits, or is dropped where there is no
/// room, and the critical section stays on top.
pub proof fn law_ceiling_defers(s: State, ceiling: u8, inv: Invocation)
    requires
        settled(s),
        priority_of(inv.task) <= ceiling,
    ensures
        settled(raised(s, ceiling)),
        level_of(raised(s, ceiling).stack) >= ceiling,
        dispatched(raised(s, ceiling), inv).stack == raised(s, ceiling).stack,
        dispatched_as(raised(s, ceiling), inv) != Dispatched::Started,
        accepted(s, inv) ==> dispatched(raised(s, ceiling), inv).ready == s.ready.push(inv),
{
    let held = raised(s, ceiling);
    assert(settled(held));
    law_dispatch_rule(held, inv);
}

/// A lock that is taken and given back with nothing dispatched meanwhile
/// leaves the dispatcher as it was.
pub proof fn law_raise_then_restore(s: State, ceiling: u8)
    requires
        settled(s),
    ensures
        restored(raised(s, ceiling)) == s,
{
    let held = raised(s, ceiling);
    assert(held.stack.drop_last() =~= s.stack);
    lemma_settle(s);
}

/// Giving the lock back lets the work go on that the lock held off: where,
/// after the lock frame has left, the next in line has a priority above the
/// level, it starts before anything else runs.
pub proof fn law_restore_starts_deferred(s: State)
    requires
        holds_lock(s),
    ensures
        settled(restored(s)),
        restored(s).stack == match chosen(State { stack: s.stack.drop_last(), ready: s.ready }) {
            Some(inv) => s.stack.drop_last().push(task_frame(inv)),
            None => s.stack.drop_last(),
        },
{
    lemma_settle(State { stack: s.stack.drop_last(), ready: s.ready });
}

fn count_pending(ready: &Vec<Invocation>, task: TaskId) -> (n: usize)
    ensures
        n == pending(ready@, task),
        n <= ready@.len(),
{
    let mut n: usize = 0;
    let mut i: usize = 0;
    assert(ready@.take(0) =~= Seq::<Invocation>::empty());
    while i < ready.len()
        invariant
            i <= ready@.len(),
            n <= i,
            n == pending(ready@.take(i as int), task),
        decreases ready@.len() - i,
    {
        assert(ready@.take(i + 1).drop_last() =~= ready@.take(i as int));
        if ready[i].task == task {
            n = n + 1;
        }
        i = i + 1;
    }
    assert(ready@.take(i as int) =~= ready@);
    n
}

fn find_best(ready: &Vec<Invocation>) -> (r: Option<usize>)
    ensures
        match r {
            Some(at) => best(ready@) == Some(at as int) && at < ready@.len(),
            None => best(ready@) is None,
        },
{
    proof {
        lemma_best(ready@);
    }
    if ready.len() == 0 {
        return None;
    }
    let mut found: usize = 0;
    let mut i: usize = 1;
    assert(best(ready@.take(1)) == Some(0int)) by {
        reveal_with_fuel(best, 2);
    }
    while i < ready.len()
        invariant
            1 <= i <= ready@.len(),
            found < i,
            best(ready@.take(i as int)) == Some(found as int),
        decreases ready@.len() - i,
    {
        assert(ready@.take(i + 1).drop_last() =~= ready@.take(i as int));
        if priority(ready[i].task) > priority(ready[found].task) {
            found = i;
        }
        i = i + 1;
    }
    assert(ready@.take(i as int) =~= ready@);
    Some(found)
}

fn settle_owned(stack: Vec<Frame>, ready: Vec<Invocation>) -> (r: (
    Vec<Frame>,
    Vec<Invocation>,
    Option<Invocation>,
))
    ensures
        (State { stack: r.0@, ready: r.1@ }) == settle((State { stack: stack@, ready: ready@ })),
        r.2 == chosen((State { stack: stack@, ready: ready@ })),
{
    let mut frames = stack;
    let mut line = ready;
    let level: u8 = if frames.len() == 0 {
        IDLE_PRIORITY
    } else {
        frames[frames.len() - 1].level
    };
    match find_best(&line) {
        Some(b) => {
            let inv = line[b];
            let p = priority(inv.task);
            if p > level {
                line.remove(b);
                frames.push(Frame { kind: FrameKind::Task(inv), level: p });
                (frames, line, Some(inv))
            } else {
                (frames, line, None)
            }
        },
        None => (frames, line, None),
    }
}

/// Decides which task runs. The task bodies themselves run outside: the
/// caller starts what the dispatcher says starts, and says when it has ended.
pub struct Dispatcher {
    stack: Vec<Frame>,
    ready: Vec<Invocation>,
}

impl Dispatcher {
    /// The running work and the waiting invocations.
    pub closed spec fn view(&self) -> State {
        State { stack: self.stack@, ready: self.ready@ }
    }

    #[verifier::type_invariant]
    spec fn well_formed(&self) -> bool {
        settled(self@) && within_capacity(self.ready@)
    }

    /// A dispatcher with nothing running and nothing waiting.
    pub fn new() -> (r: Dispatcher)
        ensures
            r@.stack == Seq::<Frame>::empty(),
            r@.ready == Seq::<Invocation>::empty(),
    {
        let r = Dispatcher { stack: Vec::new(), ready: Vec::new() };
        assert forall|task: TaskId| #[trigger] pending(r.ready@, task) <= capacity_of(task) by {}
        r
    }

    /// The level at which the processor runs. Nothing that waits has a
    /// priority above it.
    pub fn level(&self) -> (r: u8)
        ensures
            r == level_of(self@.stack),
            settled(self@),
            within_capacity(self@.ready),
    {
        proof {
            use_type_invariant(self);
        }
        if self.stack.len() == 0 {
            IDLE_PRIORITY
        } else {
            self.stack[self.stack.len() - 1].level
        }
    }

    /// The frame on top of the stack: what runs now.
    pub fn current(&self) -> (r: Option<Frame>)
        ensures
            r == if self@.stack.len() == 0 {
                None
            } else {
                Some(self@.stack.last())
            },
    {
        if self.stack.len() == 0 {
            None
        } else {
            Some(self.stack[self.stack.len() - 1])
        }
    }

    /// How many frames are on the stack.
    pub fn depth(&self) -> (n: usize)
        ensures
            n == self@.stack.len(),
    {
        self.stack.len()
    }

    /// How many invocations wait.
    pub fn waiting(&self) -> (n: usize)
        ensures
            n == self@.ready.len(),
    {
        self.ready.len()
    }

    /// How many invocations of `task` wait.
    pub fn waiting_for(&self, task: TaskId) -> (n: usize)
        ensures
            n == pending(self@.ready, task),
            n <= capacity_of(task),
    {
        proof {
            use_type_invariant(self);
        }
        count_pending(&self.ready, task)
    }

    /// Dispatches an invocation. It starts at once if and only if its priority
    /// is above the level at which the processor runs, on top of what runs
    /// now. Otherwise it waits behind all that wait already, or is dropped
    /// where as many invocations of its task wait as the task has room for.
    pub fn dispatch(&mut self, inv: Invocation) -> (r: Dispatched)
        ensures
            final(self)@ == dispatched(old(self)@, inv),
            r == dispatched_as(old(self)@, inv),
            r == if !accepted(old(self)@, inv) {
                Dispatched::Dropped
            } else if priority_of(inv.task) > level_of(old(self)@.stack) {
                Dispatched::Started
            } else {
                Dispatched::Queued
            },
            r == Dispatched::Started ==> final(self)@.stack == old(self)@.stack.push(
                task_frame(inv),
            ) && final(self)@.ready == old(self)@.ready,
            r == Dispatched::Queued ==> final(self)@.stack == old(self)@.stack
                && final(self)@.ready == old(self)@.ready.push(inv),
            r == Dispatched::Dropped ==> final(self)@ == old(self)@,
    {
        proof {
            use_type_invariant(&*self);
            law_dispatch_rule(self@, inv);
        }
        let room = count_pending(&self.ready, inv.task) < capacity(inv.task);
        if !room {
            return Dispatched::Dropped;
        }
        let p = priority(inv.task);
        let level = self.level();
        if p > level {
            let mut ready: Vec<Invocation> = Vec::new();
            core::mem::swap(&mut ready, &mut self.ready);
            let mut stack: Vec<Frame> = Vec::new();
            core::mem::swap(&mut stack, &mut self.stack);
            stack.push(Frame { kind: FrameKind::Task(inv), level: p });
            self.stack = stack;
            self.ready = ready;
            Dispatched::Started
        } else {
            let mut ready: Vec<Invocation> = Vec::new();
            core::mem::swap(&mut ready, &mut self.ready);
            ready.push(inv);
            self.ready = ready;
            Dispatched::Queued
        }
    }

    /// Dispatches a batch that fell due together: each invocation is put in
    /// the line in turn, where its task has room, and then the next in line
    /// starts if its priority is above the level.
    pub fn dispatch_all(&mut self, invs: &[Invocation]) -> (started: Option<Invocation>)
        ensures
            final(self)@ == settle(submitted_all(old(self)@, invs@)),
            started == chosen(submitted_all(old(self)@, invs@)),
    {
        proof {
            use_type_invariant(&*self);
        }
        let mut ready: Vec<Invocation> = Vec::new();
        core::mem::swap(&mut ready, &mut self.ready);
        let mut stack: Vec<Frame> = Vec::new();
        core::mem::swap(&mut stack, &mut self.stack);
        let ghost start = State { stack: stack@, ready: ready@ };
        let mut i: usize = 0;
        assert(invs@.take(0) =~= Seq::<Invocation>::empty());
        while i < invs.len()
            invariant
                i <= invs@.len(),
                (State { stack: stack@, ready: ready@ }) == submitted_all(
                    start,
                    invs@.take(i as int),
                ),
                within_capacity(ready@),
            decreases invs@.len() - i,
        {
            assert(invs@.take(i + 1).drop_last() =~= invs@.take(i as int));
            let inv = invs[i];
            let ghost before = ready@;
            if count_pending(&ready, inv.task) < capacity(inv.task) {
                ready.push(inv);
                assert(ready@.drop_last() =~= before);
                assert forall|task: TaskId| #[trigger]
                    pending(ready@, task) <= capacity_of(task) by {
                    assert(pending(before, task) <= capacity_of(task));
                }
            }
            i = i + 1;
        }
        assert(invs@.take(i as int) =~= invs@);
        proof {
            lemma_settle(State { stack: stack@, ready: ready@ });
        }
        let (stack, ready, started) = settle_owned(stack, ready);
        self.stack = stack;
        self.ready = ready;
        started
    }

    /// Says that the running task has ended. Its frame leaves the stack, and
    /// the next in line starts if its priority is above the level of what was
    /// below; otherwise what was below goes on. `None`, and nothing changes,
    /// where the frame on top is not a task's.
    pub fn complete(&mut self) -> (r: Option<Next>)
        ensures
            final(self)@ == completed(old(self)@),
            r == completed_as(old(self)@),
    {
        proof {
            use_type_invariant(&*self);
        }
        if self.stack.len() == 0 {
            return None;
        }
        match self.stack[self.stack.len() - 1].kind {
            FrameKind::Lock => None,
            FrameKind::Task(_) => Some(self.leave()),
        }
    }

    /// Takes a lock with the given ceiling: until it is given back, the
    /// processor runs at the ceiling, or at its level if that is higher.
    pub fn raise(&mut self, ceiling: u8)
        ensures
            final(self)@ == raised(old(self)@, ceiling),
            level_of(final(self)@.stack) >= ceiling,
            level_of(final(self)@.stack) >= level_of(old(self)@.stack),
            settled(old(self)@),
    {
        proof {
            use_type_invariant(&*self);
        }
        let level = self.level();
        let frame = Frame {
            kind: FrameKind::Lock,
            level: if ceiling > level {
                ceiling
            } else {
                level
            },
        };
        let mut ready: Vec<Invocation> = Vec::new();
        core::mem::swap(&mut ready, &mut self.ready);
        let mut stack: Vec<Frame> = Vec::new();
        core::mem::swap(&mut stack, &mut self.stack);
        stack.push(frame);
        self.stack = stack;
        self.ready = ready;
    }

    /// Gives back the lock taken last. Its frame leaves the stack, and the next
    /// in line starts if its priority is above the level of what was below;
    /// otherwise what was below goes on. `None`, and nothing changes, where
    /// the frame on top is not a lock's.
    pub fn restore(&mut self) -> (r: Option<Next>)
        ensures
            final(self)@ == restored(old(self)@),
            r == restored_as(old(self)@),
    {
        proof {
            use_type_invariant(&*self);
        }
        if self.stack.len() == 0 {
            return None;
        }
        match self.stack[self.stack.len() - 1].kind {
            FrameKind::Task(_) => None,
            FrameKind::Lock => Some(self.leave()),
        }
    }

    fn leave(&mut self) -> (r: Next)
        requires
            old(self)@.stack.len() > 0,
        ensures
            final(self)@ == settle(
                (State { stack: old(self)@.stack.drop_last(), ready: old(self)@.ready }),
            ),
            r == next_of(
                (State { stack: old(self)@.stack.drop_last(), ready: old(self)@.ready }),
                final(self)@,
            ),
    {
        proof {
            use_type_invariant(&*self);
        }
        let mut ready: Vec<Invocation> = Vec::new();
        core::mem::swap(&mut ready, &mut self.ready);
        let mut stack: Vec<Frame> = Vec::new();
        core::mem::swap(&mut stack, &mut self.stack);
        stack.pop();
        proof {
            lemma_settle(State { stack: stack@, ready: ready@ });
        }
        let (stack, ready, started) = settle_owned(stack, ready);
        let r = match started {
            Some(inv) => Next::Start(inv),
            None => if stack.len() == 0 {
                Next::Idle
            } else {
                Next::Resume
            },
        };
        self.stack = stack;
        self.ready = ready;
        r
    }
}

} // verus!
