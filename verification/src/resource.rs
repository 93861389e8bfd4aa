//! State shared by tasks of different priority, behind a priority-ceiling lock.
//!
//! Access goes through the lock, and the lock raises the level at which the
//! processor runs to the cell's ceiling: the highest priority of any task that
//! touches the cell. While it is held, none of those tasks can start. Taking
//! the lock uses the cell up until it is given back, so work that holds it
//! cannot take it again.

use crate::dispatcher::{raised, restored, restored_as, Dispatcher, Next};
use crate::scheduler::Scheduler;
use vstd::prelude::*;

verus! {

/// A value with the ceiling under which it is reached.
pub struct ResourceCell<T> {
    value: T,
    ceiling: u8,
}

/// A cell whose lock is held. It gives access to the value.
pub struct Held<T> {
    value: T,
    ceiling: u8,
}

impl<T> ResourceCell<T> {
    /// The value in the cell.
    pub closed spec fn view(&self) -> T {
        self.value
    }

    /// The ceiling of the cell.
    pub closed spec fn ceiling_of(&self) -> u8 {
        self.ceiling
    }

    /// A cell that holds `value`, for tasks of priority up to `ceiling`.
    pub fn new(value: T, ceiling: u8) -> (r: ResourceCell<T>)
        ensures
            r@ == value,
            r.ceiling_of() == ceiling,
    {
        ResourceCell { value, ceiling }
    }

    /// The ceiling of the cell.
    pub fn ceiling(&self) -> (r: u8)
        ensures
            r == self.ceiling_of(),
    {
        self.ceiling
    }

    /// Takes the lock: the level goes up to the ceiling, and the cell is in
    /// the caller's hand until `release`.
    pub fn acquire(self, dispatcher: &mut Dispatcher) -> (held: Held<T>)
        ensures
            held@ == self@,
            held.ceiling_of() == self.ceiling_of(),
            final(dispatcher)@ == raised(old(dispatcher)@, self.ceiling_of()),
    {
        dispatcher.raise(self.ceiling);
        Held { value: self.value, ceiling: self.ceiling }
    }

    /// Runs `f` with the lock held, and gives the lock back. `f` gets the
    /// value and the dispatcher, on which the lock's frame is on top: what is
    /// dispatched in `f` at a priority up to the ceiling waits. The cell then
    /// holds what `f` made of the value, and the dispatcher is what giving the
    /// lock back makes of the one that `f` left; the last part of the result
    /// says what goes on then.
    pub fn lock<R, F: FnOnce(T, &mut Dispatcher) -> (T, R)>(
        self,
        dispatcher: &mut Dispatcher,
        f: F,
    ) -> (r: (ResourceCell<T>, R, Option<Next>))
        requires
            forall|d: &mut Dispatcher|
                (*d)@ == raised(old(dispatcher)@, self.ceiling_of()) ==> f.requires((self@, d)),
        ensures
            r.0.ceiling_of() == self.ceiling_of(),
            exists|d: &mut Dispatcher|
                {
                    &&& (*d)@ == raised(old(dispatcher)@, self.ceiling_of())
                    &&& f.ensures((self@, d), (r.0@, r.1))
                    &&& final(dispatcher)@ == restored((*final(d))@)
                    &&& r.2 == restored_as((*final(d))@)
                },
    {
        let ceiling = self.ceiling;
        dispatcher.raise(ceiling);
        let (value, result) = f(self.value, dispatcher);
        let next = dispatcher.restore();
        (ResourceCell { value, ceiling }, result, next)
    }
}

impl<T> ResourceCell<T> {
    /// Runs `f` with the lock held on a scheduler's processor, and gives the
    /// lock back. `f` gets the value and the scheduler, on whose stack the
    /// lock's frame is on top: what is asked for in `f` at a priority up to
    /// the ceiling waits. The cell then holds what `f` made of the value, and
    /// the work is what giving the lock back makes of the work that `f` left;
    /// the last part of the result says what goes on then.
    pub fn lock_in<R, F: FnOnce(T, &mut Scheduler) -> (T, R)>(
        self,
        scheduler: &mut Scheduler,
        f: F,
    ) -> (r: (ResourceCell<T>, R, Option<Next>))
        requires
            forall|s: &mut Scheduler|
                (*s)@.timers == old(scheduler)@.timers && (*s)@.work == raised(
                    old(scheduler)@.work,
                    self.ceiling_of(),
                ) ==> f.requires((self@, s)),
        ensures
            r.0.ceiling_of() == self.ceiling_of(),
            exists|s: &mut Scheduler|
                {
                    &&& (*s)@.timers == old(scheduler)@.timers
                    &&& (*s)@.work == raised(old(scheduler)@.work, self.ceiling_of())
                    &&& f.ensures((self@, s), (r.0@, r.1))
                    &&& final(scheduler)@.timers == (*final(s))@.timers
                    &&& final(scheduler)@.work == restored((*final(s))@.work)
                    &&& r.2 == restored_as((*final(s))@.work)
                },
    {
        let ceiling = self.ceiling;
        scheduler.raise(ceiling);
        let (value, result) = f(self.value, scheduler);
        let next = scheduler.restore();
        (ResourceCell { value, ceiling }, result, next)
    }
}

impl<T> Held<T> {
    /// The value in the cell.
    pub closed spec fn view(&self) -> T {
        self.value
    }

    /// The ceiling of the cell.
    pub closed spec fn ceiling_of(&self) -> u8 {
        self.ceiling
    }

    /// Reads the value.
    pub fn get(&self) -> (r: &T)
        ensures
            *r == self@,
    {
        &self.value
    }

    /// Writes the value.
    pub fn set(&mut self, value: T)
        ensures
            final(self)@ == value,
            final(self).ceiling_of() == old(self).ceiling_of(),
    {
        self.value = value;
    }

    /// Gives the lock back. The level goes back to what it was, and the next
    /// in line starts if the lock was all that held it off.
    pub fn release(self, dispatcher: &mut Dispatcher) -> (r: (ResourceCell<T>, Option<Next>))
        ensures
            r.0@ == self@,
            r.0.ceiling_of() == self.ceiling_of(),
            final(dispatcher)@ == restored(old(dispatcher)@),
            r.1 == restored_as(old(dispatcher)@),
    {
        let next = dispatcher.restore();
        (ResourceCell { value: self.value, ceiling: self.ceiling }, next)
    }
}

} // verus!

