//! The task set, fixed when the program is built: which tasks there are, the
//! priority each one runs at, how many of its invocations may wait, which
//! interrupt starts which task, and which task consumes which command.

use crate::clock::Instant;
use crate::command::Command;
use vstd::prelude::*;

verus! {

/// The interrupt line of the serial receiver.
pub const EVENT_SERIAL_RX: u16 = 37;

/// The interrupt line of the push button's edge detector.
pub const EVENT_BUTTON_EDGE: u16 = 40;

/// The interrupt line of the pin-change unit.
pub const EVENT_PIN_CHANGE: u16 = 6;

/// The room of all tasks together: the sum of the capacity table.
pub const TOTAL_ROOM: usize = 29;

/// The priority at which nothing but the background loop runs.
pub const IDLE_PRIORITY: u8 = 0;

/// A task of the fixed set.
#[derive(Clone, Copy, Debug, PartialEq, Eq, Structural)]
pub enum TaskId {
    /// Reads the serial receiver and hands each byte on.
    CommandRx,
    /// Acknowledges a button edge and schedules its confirmation.
    ButtonClick,
    /// Acknowledges pin changes and schedules their confirmation.
    OnGpiote,
    /// Feeds one received byte to the framer.
    Parse,
    /// Toggles the lamp and schedules itself again.
    Blink,
    /// Confirms a button edge and sends the new state as one byte.
    Send,
    /// Confirms a pin change and sends `On` or `Off`.
    BlinkLed,
    /// Confirms a pin change and sends a new level.
    ChangePwm,
    /// Frames a command and writes it to the serial line.
    SendCommand,
    /// Sends the lamp's next state every second.
    SendingBlink,
    /// Sends a fixed word every second.
    SendingBuffer,
    /// Switches two lamps against each other, over and over.
    Alternate,
    /// Applies `On`, `Off` and `SetLevel` to the lamp.
    Light,
    /// Applies `SetInterval` to the blink period.
    Pace,
}

/// What an invocation carries.
#[derive(Clone, Copy, Debug, PartialEq, Eq, Structural)]
pub enum Payload {
    /// One byte of the stream.
    Byte(u8),
    /// A command.
    Command(Command),
}

/// One run of a task that was asked for.
#[derive(Clone, Copy, Debug, PartialEq, Eq, Structural)]
pub struct Invocation {
    /// The task to run.
    pub task: TaskId,
    /// What is handed to it.
    pub payload: Option<Payload>,
}

/// A run of a task that was asked for at a later instant.
#[derive(Clone, Copy, Debug, PartialEq, Eq, Structural)]
pub struct PendingSpawn {
    /// The task to run.
    pub task: TaskId,
    /// The instant from which it may run.
    pub due: Instant,
    /// What is handed to it.
    pub payload: Option<Payload>,
}

/// The priority table. Tasks bound to the serial receiver and to the button
/// edge run at 2, all others at 1.
pub open spec fn priority_of(task: TaskId) -> u8 {
    match task {
        TaskId::CommandRx => 2,
        TaskId::ButtonClick => 2,
        _ => 1,
    }
}

/// The capacity table: how many invocations of a task may wait at once.
pub open spec fn capacity_of(task: TaskId) -> nat {
    match task {
        TaskId::Parse => 16,
        _ => 1,
    }
}

/// The interrupt table.
pub open spec fn task_of_event(event: u16) -> Option<TaskId> {
    if event == EVENT_SERIAL_RX {
        Some(TaskId::CommandRx)
    } else if event == EVENT_BUTTON_EDGE {
        Some(TaskId::ButtonClick)
    } else if event == EVENT_PIN_CHANGE {
        Some(TaskId::OnGpiote)
    } else {
        None
    }
}

/// The command table: the one task that consumes a command.
pub open spec fn consumer_of(command: Command) -> TaskId {
    match command {
        Command::SetInterval(_) => TaskId::Pace,
        _ => TaskId::Light,
    }
}

/// The priority of a task.
pub fn priority(task: TaskId) -> (p: u8)
    ensures
        p == priority_of(task),
        p > IDLE_PRIORITY,
{
    match task {
        TaskId::CommandRx => 2,
        TaskId::ButtonClick => 2,
        _ => 1,
    }
}

/// How many invocations of a task may wait at once.
pub fn capacity(task: TaskId) -> (n: usize)
    ensures
        n == capacity_of(task),
        n >= 1,
{
    match task {
        TaskId::Parse => 16,
        _ => 1,
    }
}

/// The task that an interrupt line starts, if it starts any.
pub fn task_for_event(event: u16) -> (task: Option<TaskId>)
    ensures
        task == task_of_event(event),
{
    if event == EVENT_SERIAL_RX {
        Some(TaskId::CommandRx)
    } else if event == EVENT_BUTTON_EDGE {
        Some(TaskId::ButtonClick)
    } else if event == EVENT_PIN_CHANGE {
        Some(TaskId::OnGpiote)
    } else {
        None
    }
}

/// The task that consumes a command.
pub fn consumer(command: Command) -> (task: TaskId)
    ensures
        task == consumer_of(command),
{
    match command {
        Command::SetInterval(_) => TaskId::Pace,
        _ => TaskId::Light,
    }
}

} // verus!
