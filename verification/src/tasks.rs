//! What each task decides when it runs. The tasks read pins and write to the
//! serial line outside this library; here they get what was read and say what
//! is to be written, dispatched and scheduled.

use crate::actuation::{applied, Lamp, DUTY_PER_BRIGHTNESS};
use crate::clock::{deadline_of, Duration, Instant, TICKS_PER_MILLI, TICKS_PER_SEC};
use crate::command::Command;
use crate::dispatcher::{task_frame, Dispatched, Frame};
use crate::framer::{encode, framed, step, FrameEvent, Framer};
use crate::scheduler::{
    free, spawned_later, spawned_later_as, spawned_now, spawned_now_as, Plan, Scheduler,
};
use crate::task::{consumer, consumer_of, Invocation, Payload, PendingSpawn, TaskId};
use crate::timer_queue::{
    due_count, inserted, law_tie_keeps_arrival_order, lemma_booked_inserted, lemma_due_count,
    sorted, Scheduled,
};
use vstd::prelude::*;

verus! {

/// How long the push button is left to settle, in milliseconds.
pub const CLICK_SETTLE_MILLIS: u32 = 25;

/// By how much one press changes the level.
pub const LEVEL_STEP: u8 = 32;

/// What the receiving board holds once it has started.
pub struct Board {
    /// The timer queue and the dispatcher.
    pub scheduler: Scheduler,
    /// The framer that `Parse` feeds.
    pub framer: Framer,
    /// The lamp that `Blink` drives.
    pub lamp: Lamp,
}

/// What `parse` made of a byte.
#[derive(Clone, Copy, Debug, PartialEq, Eq, Structural)]
pub struct Parsed {
    /// What the framer said.
    pub event: FrameEvent,
    /// The task that consumed the command, where the byte closed a frame that
    /// held one.
    pub consumer: Option<TaskId>,
}

/// What `on_gpiote` scheduled.
#[derive(Clone, Copy, Debug, PartialEq, Eq, Structural)]
pub struct Confirmations {
    /// The confirmation of the on and off buttons, where one of them fired.
    pub buttons: Option<Scheduled>,
    /// The confirmation of the level buttons, where the port fired.
    pub levels: Option<Scheduled>,
}

/// The invocation that hands one received byte to `Parse`.
pub open spec fn byte_for_parse(d: u8) -> Invocation {
    Invocation { task: TaskId::Parse, payload: Some(Payload::Byte(d)) }
}

/// The invocation that hands a command to `SendCommand`.
pub open spec fn sending_of(command: Command) -> Invocation {
    Invocation { task: TaskId::SendCommand, payload: Some(Payload::Command(command)) }
}

/// The entry that asks for `task` so many ticks after `now`.
pub open spec fn entry_after(now: Instant, task: TaskId, ticks: int) -> PendingSpawn {
    PendingSpawn { task, due: deadline_of(now, Duration { ticks: ticks as u64 }), payload: None }
}

/// The plan after a run of `Parse` was asked for with each of the bytes, in
/// turn.
pub open spec fn received(p: Plan, bytes: Seq<u8>) -> Plan
    decreases bytes.len(),
{
    if bytes.len() == 0 {
        p
    } else {
        spawned_now(received(p, bytes.drop_last()), byte_for_parse(bytes.last()))
    }
}

/// How many of the bytes found no room and were dropped.
pub open spec fn lost(p: Plan, bytes: Seq<u8>) -> nat
    decreases bytes.len(),
{
    if bytes.len() == 0 {
        0
    } else {
        lost(p, bytes.drop_last()) + if spawned_now_as(
            received(p, bytes.drop_last()),
            byte_for_parse(bytes.last()),
        ) == Dispatched::Dropped {
            1nat
        } else {
            0nat
        }
    }
}

/// Whether a frame event switches the lamp: `On` switches it on, `Off` off.
pub open spec fn switch_of(event: FrameEvent) -> Option<bool> {
    match event {
        FrameEvent::Complete(Command::On) => Some(true),
        FrameEvent::Complete(Command::Off) => Some(false),
        _ => None,
    }
}

/// The command that two settled buttons ask for: `On` where the first is
/// held down, else `Off` where the second is.
pub open spec fn confirmed(on_low: bool, off_low: bool) -> Option<Command> {
    if on_low {
        Some(Command::On)
    } else if off_low {
        Some(Command::Off)
    } else {
        None
    }
}

/// The level after the level buttons were read: one step up while the first
/// is held down and the level is not at its top, else one step down while the
/// second is held down and the level is not at zero. It stops at both ends.
pub open spec fn stepped(level: u8, up_low: bool, down_low: bool) -> u8 {
    if up_low && level < 255 {
        if level + LEVEL_STEP > 255 {
            255
        } else {
            (level + LEVEL_STEP) as u8
        }
    } else if down_low && level > 0 {
        if level < LEVEL_STEP {
            0
        } else {
            (level - LEVEL_STEP) as u8
        }
    } else {
        level
    }
}

/// Start-up of the receiving board, once the hardware is set up: nothing is
/// pending and nothing buffered, the lamp is as bright as the channel's full
/// duty and changes phase every second, and `Blink` runs.
pub fn init(max_duty: u16) -> (board: Board)
    ensures
        board.scheduler@.timers == Seq::<PendingSpawn>::empty(),
        board.scheduler@.work.stack == seq![
            task_frame((Invocation { task: TaskId::Blink, payload: None })),
        ],
        board.scheduler@.work.ready == Seq::<Invocation>::empty(),
        board.framer@ == Seq::<u8>::empty(),
        board.lamp == (Lamp { brightness: max_duty, time: 1, powered: false }),
{
    let mut scheduler = Scheduler::new();
    let ghost before = scheduler@;
    proof {
        assert(crate::timer_queue::invocations_of(before.timers) =~= Seq::<Invocation>::empty());
        assert(before.work.ready =~= Seq::<Invocation>::empty());
        assert(before.work.stack =~= Seq::<Frame>::empty());
        crate::dispatcher::law_dispatch_rule(
            before.work,
            Invocation { task: TaskId::Blink, payload: None },
        );
    }
    scheduler.spawn(TaskId::Blink, None);
    assert(scheduler@.work.stack =~= seq![
        task_frame((Invocation { task: TaskId::Blink, payload: None })),
    ]);
    Board { scheduler, framer: Framer::new(), lamp: Lamp::new(max_duty) }
}

/// The serial receiver has bytes. A run of `Parse` is asked for with each, in
/// the order in which they came; a byte that finds no room is dropped.
pub fn command_rx(scheduler: &mut Scheduler, bytes: &[u8]) -> (dropped: usize)
    ensures
        final(scheduler)@ == received(old(scheduler)@, bytes@),
        dropped == lost(old(scheduler)@, bytes@),
{
    let mut dropped: usize = 0;
    let mut i: usize = 0;
    assert(bytes@.take(0) =~= Seq::<u8>::empty());
    while i < bytes.len()
        invariant
            i <= bytes@.len(),
            dropped <= i,
            scheduler@ == received(old(scheduler)@, bytes@.take(i as int)),
            dropped == lost(old(scheduler)@, bytes@.take(i as int)),
        decreases bytes@.len() - i,
    {
        assert(bytes@.take(i + 1).drop_last() =~= bytes@.take(i as int));
        let r = scheduler.spawn(TaskId::Parse, Some(Payload::Byte(bytes[i])));
        if r == Dispatched::Dropped {
            dropped = dropped + 1;
        }
        i = i + 1;
    }
    assert(bytes@.take(i as int) =~= bytes@);
    dropped
}

/// One received byte goes to the framer. Where it closes a frame that holds a
/// command, that command is handed, once and at once, to the task that
/// consumes it, which applies it to the lamp. No command that was decoded is
/// lost, and nothing else changes the lamp.
pub fn parse(framer: &mut Framer, lamp: &mut Lamp, d: u8) -> (r: Parsed)
    ensures
        (final(framer)@, r.event) == step(old(framer)@, d),
        match r.event {
            FrameEvent::Complete(command) => {
                &&& *final(lamp) == applied(*old(lamp), command)
                &&& r.consumer == Some(consumer_of(command))
            },
            _ => *final(lamp) == *old(lamp) && r.consumer is None,
        },
{
    let event = framer.push(d);
    match event {
        FrameEvent::Complete(command) => {
            let task = consumer(command);
            match task {
                TaskId::Pace => {
                    lamp.pace(command);
                },
                _ => {
                    lamp.light(command);
                },
            }
            Parsed { event, consumer: Some(task) }
        },
        _ => Parsed { event, consumer: None },
    }
}

/// The background loop has polled one byte from the serial receiver. It goes
/// to the framer; where it closes a frame that holds `On` or `Off`, the lamp
/// is to be switched on or off.
pub fn idle(framer: &mut Framer, d: u8) -> (lamp: Option<bool>)
    ensures
        final(framer)@ == step(old(framer)@, d).0,
        lamp == switch_of(step(old(framer)@, d).1),
{
    match framer.push(d) {
        FrameEvent::Complete(Command::On) => Some(true),
        FrameEvent::Complete(Command::Off) => Some(false),
        _ => None,
    }
}

/// The pin-change unit has fired. Nothing is read yet: where one of the two
/// button channels fired, `BlinkLed` is asked for after the settle delay, and
/// then, where the port fired, `ChangePwm` is. A confirmation that is
/// outstanding already is not asked for twice.
pub fn on_gpiote(
    scheduler: &mut Scheduler,
    now: Instant,
    settle: Duration,
    channel0: bool,
    channel1: bool,
    port: bool,
) -> (r: Confirmations)
    ensures
        ({
            let first = PendingSpawn {
                task: TaskId::BlinkLed,
                due: deadline_of(now, settle),
                payload: None,
            };
            let second = PendingSpawn {
                task: TaskId::ChangePwm,
                due: deadline_of(now, settle),
                payload: None,
            };
            let between = if channel0 || channel1 {
                spawned_later(old(scheduler)@, first)
            } else {
                old(scheduler)@
            };
            &&& r.buttons == if channel0 || channel1 {
                Some(spawned_later_as(old(scheduler)@, first))
            } else {
                None
            }
            &&& r.levels == if port {
                Some(spawned_later_as(between, second))
            } else {
                None
            }
            &&& final(scheduler)@ == if port {
                spawned_later(between, second)
            } else {
                between
            }
        }),
{
    let buttons = if channel0 || channel1 {
        Some(scheduler.spawn_after(now, TaskId::BlinkLed, settle, None))
    } else {
        None
    };
    let levels = if port {
        Some(scheduler.spawn_after(now, TaskId::ChangePwm, settle, None))
    } else {
        None
    };
    Confirmations { buttons, levels }
}

/// Both confirmations, asked for by one interrupt, fall due at the same
/// instant: where both tasks have room, both are stored, `ChangePwm` directly
/// behind `BlinkLed`, so that `BlinkLed` is dispatched first.
pub proof fn law_confirmations_keep_order(p: Plan, now: Instant, settle: Duration)
    requires
        sorted(p.timers),
        free(p, TaskId::BlinkLed),
        free(p, TaskId::ChangePwm),
    ensures
        ({
            let first = PendingSpawn {
                task: TaskId::BlinkLed,
                due: deadline_of(now, settle),
                payload: None,
            };
            let second = PendingSpawn {
                task: TaskId::ChangePwm,
                due: deadline_of(now, settle),
                payload: None,
            };
            let after = spawned_later(spawned_later(p, first), second);
            let at = due_count(p.timers, first.due.ticks) as int;
            &&& after.work == p.work
            &&& after.timers == inserted(inserted(p.timers, first), second)
            &&& after.timers.len() == p.timers.len() + 2
            &&& after.timers[at] == first
            &&& after.timers[at + 1] == second
            &&& sorted(after.timers)
        }),
{
    let first = PendingSpawn { task: TaskId::BlinkLed, due: deadline_of(now, settle), payload: None };
    let second = PendingSpawn {
        task: TaskId::ChangePwm,
        due: deadline_of(now, settle),
        payload: None,
    };
    let q = p.timers;
    let once = inserted(q, first);
    lemma_booked_inserted(q, first, TaskId::ChangePwm);
    law_tie_keeps_arrival_order(q, first, second);
    lemma_due_count(q, first.due.ticks);
    lemma_due_count(once, second.due.ticks);
    let at = due_count(q, first.due.ticks) as int;
    let behind = due_count(once, second.due.ticks) as int;
    if behind > at + 1 {
        assert(once[at + 1] == q[at]);
        assert(once[at + 1].due.ticks <= second.due.ticks);
    }
}

/// The push button's edge detector has fired. `Send` is asked for after the
/// settle delay.
pub fn button_click(scheduler: &mut Scheduler, now: Instant) -> (r: Scheduled)
    ensures
        final(scheduler)@ == spawned_later(
            old(scheduler)@,
            entry_after(now, TaskId::Send, CLICK_SETTLE_MILLIS * TICKS_PER_MILLI),
        ),
        r == spawned_later_as(
            old(scheduler)@,
            entry_after(now, TaskId::Send, CLICK_SETTLE_MILLIS * TICKS_PER_MILLI),
        ),
{
    scheduler.spawn_after(now, TaskId::Send, Duration::millis(CLICK_SETTLE_MILLIS), None)
}

/// The on and off buttons have settled and were read. Where one is held down,
/// a run of `SendCommand` is asked for with its command.
pub fn blink_led(scheduler: &mut Scheduler, btn_on_low: bool, btn_off_low: bool) -> (r: Option<
    (Command, Dispatched),
>)
    ensures
        match confirmed(btn_on_low, btn_off_low) {
            Some(command) => {
                &&& final(scheduler)@ == spawned_now(old(scheduler)@, sending_of(command))
                &&& r == Some((command, spawned_now_as(old(scheduler)@, sending_of(command))))
            },
            None => final(scheduler)@ == old(scheduler)@ && r is None,
        },
{
    let command = if btn_on_low {
        Command::On
    } else if btn_off_low {
        Command::Off
    } else {
        return None;
    };
    let sent = scheduler.spawn(TaskId::SendCommand, Some(Payload::Command(command)));
    Some((command, sent))
}

/// The level buttons have settled and were read. The level goes one step up
/// or down, and a run of `SendCommand` is asked for with it whether it
/// changed or not.
pub fn change_pwm(
    scheduler: &mut Scheduler,
    level: &mut u8,
    bright_on_low: bool,
    bright_off_low: bool,
) -> (r: (Command, Dispatched))
    ensures
        *final(level) == stepped(*old(level), bright_on_low, bright_off_low),
        r.0 == Command::SetLevel(*final(level) as u16),
        final(scheduler)@ == spawned_now(old(scheduler)@, sending_of(r.0)),
        r.1 == spawned_now_as(old(scheduler)@, sending_of(r.0)),
{
    if bright_on_low && *level < 255 {
        *level = level.saturating_add(LEVEL_STEP);
    } else if bright_off_low && *level > 0 {
        *level = level.saturating_sub(LEVEL_STEP);
    }
    let command = Command::SetLevel(*level as u16);
    let sent = scheduler.spawn(TaskId::SendCommand, Some(Payload::Command(command)));
    (command, sent)
}

/// The bytes that go out on the serial line for a command: its frame.
pub fn send_command(command: Command) -> (bytes: Vec<u8>)
    ensures
        bytes@ == framed(command),
{
    encode(command)
}

/// The push button has settled and was read. Where it is held down, the state
/// flips; the byte that goes out is 1 where it flipped to on, else 0.
pub fn send(is_on: &mut bool, button_low: bool) -> (b: u8)
    ensures
        *final(is_on) == (if button_low {
            !*old(is_on)
        } else {
            *old(is_on)
        }),
        b == if button_low && !*old(is_on) {
            1u8
        } else {
            0u8
        },
{
    let mut b: u8 = 0;
    if button_low {
        if *is_on {
            b = 0;
            *is_on = false;
        } else {
            b = 1;
            *is_on = true;
        }
    }
    b
}

/// The lamp flips: the byte that goes out is its new state, 1 for lit. The
/// task is asked for again a second later.
pub fn sending_blink(lit: &mut bool, scheduler: &mut Scheduler, now: Instant) -> (r: (
    u8,
    Scheduled,
))
    ensures
        *final(lit) == !*old(lit),
        r.0 == if *old(lit) {
            0u8
        } else {
            1u8
        },
        final(scheduler)@ == spawned_later(
            old(scheduler)@,
            entry_after(now, TaskId::SendingBlink, TICKS_PER_SEC as int),
        ),
        r.1 == spawned_later_as(
            old(scheduler)@,
            entry_after(now, TaskId::SendingBlink, TICKS_PER_SEC as int),
        ),
{
    let b: u8 = if *lit {
        0
    } else {
        1
    };
    *lit = !*lit;
    let again = scheduler.spawn_after(now, TaskId::SendingBlink, Duration::secs(1), None);
    (b, again)
}

/// The word that `SendingBuffer` sends: a four-byte character. The task is
/// asked for again a second later.
pub fn sending_buffer(scheduler: &mut Scheduler, now: Instant) -> (r: (Vec<u8>, Scheduled))
    ensures
        r.0@ == seq![0xf0u8, 0x9fu8, 0x8du8, 0xbbu8],
        final(scheduler)@ == spawned_later(
            old(scheduler)@,
            entry_after(now, TaskId::SendingBuffer, TICKS_PER_SEC as int),
        ),
        r.1 == spawned_later_as(
            old(scheduler)@,
            entry_after(now, TaskId::SendingBuffer, TICKS_PER_SEC as int),
        ),
{
    let mut word: Vec<u8> = Vec::new();
    word.push(0xf0);
    word.push(0x9f);
    word.push(0x8d);
    word.push(0xbb);
    assert(word@ =~= seq![0xf0u8, 0x9fu8, 0x8du8, 0xbbu8]);
    let again = scheduler.spawn_after(now, TaskId::SendingBuffer, Duration::secs(1), None);
    (word, again)
}

/// The lamp changes phase. In the lit phase the duty is eight times the
/// brightness, which has to fit the channel; in the dark phase it is none,
/// whatever the brightness. The task is asked for again after the lamp's
/// phase length.
pub fn blink(lamp: &mut Lamp, scheduler: &mut Scheduler, now: Instant) -> (r: (u16, Scheduled))
    requires
        old(lamp).powered ==> old(lamp).brightness * DUTY_PER_BRIGHTNESS <= u16::MAX,
    ensures
        *final(lamp) == (Lamp { powered: !old(lamp).powered, ..*old(lamp) }),
        r.0 == if old(lamp).powered {
            old(lamp).brightness * DUTY_PER_BRIGHTNESS
        } else {
            0
        },
        final(scheduler)@ == spawned_later(
            old(scheduler)@,
            entry_after(now, TaskId::Blink, old(lamp).time * TICKS_PER_SEC),
        ),
        r.1 == spawned_later_as(
            old(scheduler)@,
            entry_after(now, TaskId::Blink, old(lamp).time * TICKS_PER_SEC),
        ),
{
    let duty: u16 = if lamp.powered {
        lamp.brightness * DUTY_PER_BRIGHTNESS
    } else {
        0
    };
    lamp.powered = !lamp.powered;
    let again = scheduler.spawn_after(now, TaskId::Blink, Duration::secs(lamp.time as u32), None);
    (duty, again)
}

/// Two lamps are switched against each other: the first goes to the level
/// that it is not at, the second to the level that the first was at. The task
/// is asked for again after `period`.
pub fn alternate(scheduler: &mut Scheduler, now: Instant, period: Duration, first_high: bool) -> (r:
    (bool, bool, Scheduled))
    ensures
        r.0 == !first_high,
        r.1 == first_high,
        final(scheduler)@ == spawned_later(
            old(scheduler)@,
            (PendingSpawn { task: TaskId::Alternate, due: deadline_of(now, period), payload: None }),
        ),
        r.2 == spawned_later_as(
            old(scheduler)@,
            (PendingSpawn { task: TaskId::Alternate, due: deadline_of(now, period), payload: None }),
        ),
{
    let again = scheduler.spawn_after(now, TaskId::Alternate, period, None);
    (!first_high, first_high, again)
}

} // verus!
