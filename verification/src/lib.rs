//! A small real-time scheduling and command-framing core for interrupt-driven
//! control applications.
//!
//! - [`clock`]: instants, durations, deadlines, and the clock that stretches a
//!   wrapping hardware counter.
//! - [`timer_queue`]: runs of tasks asked for at a later instant, in the order
//!   in which they fall due.
//! - [`dispatcher`]: static priorities, preemption, and first come first
//!   served among equals.
//! - [`resource`]: shared state behind a priority-ceiling lock.
//! - [`scheduler`]: the timer queue and the dispatcher behind the interrupts.
//! - [`command`], [`varint`], [`cobs`], [`framer`], [`frame_buffer`]: commands,
//!   their bytes on the wire, and the framer that finds them in a stream.
//! - [`task`], [`tasks`], [`actuation`], [`echo`]: the fixed task set and what
//!   each task decides.
//!
//! The library reads no pin and writes to no line. The caller hands it what
//! was read, and does what it says is to be written, armed or run.

pub mod actuation;
pub mod clock;
pub mod cobs;
pub mod command;
pub mod dispatcher;
pub mod echo;
pub mod frame_buffer;
pub mod framer;
pub mod resource;
pub mod scheduler;
pub mod task;
pub mod tasks;
pub mod timer_queue;
pub mod varint;
