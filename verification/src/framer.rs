//! Frames on a byte stream: a command is written as its wire bytes, stuffed,
//! and closed by a zero; the receiver collects bytes until the zero and decodes
//! what it has.

use crate::cobs::{
    body, body_of, lemma_body_of_closed, lemma_stuffed_has_no_zero, lemma_stuffed_len,
    lemma_unstuff_stuffed, stuff, stuffed, unstuff, unstuffed,
};
use crate::command::{lemma_parse_wire, parse_command, parsed, serialize, wire, Command, DecodeError};
use crate::frame_buffer::{FrameBuffer, FRAME_CAPACITY};
use vstd::prelude::*;

verus! {

/// What one pushed byte led to.
#[derive(Clone, Copy, Debug, PartialEq, Eq, Structural)]
pub enum FrameEvent {
    /// The byte was stored; the frame is not closed yet.
    Pending,
    /// The byte closed a frame that holds this command.
    Complete(Command),
    /// The byte closed a frame that could not be decoded.
    DecodeError(DecodeError),
    /// The buffer was full: the byte and all that was buffered are gone.
    Overflow,
}

/// Where a framer stands between two bytes.
#[derive(Clone, Copy, Debug, PartialEq, Eq, Structural)]
pub enum FramerState {
    /// Nothing is buffered.
    Idle,
    /// A frame has begun and is not closed yet.
    Accumulating,
}

/// The frame of a command: its wire bytes, stuffed, then the closing zero.
pub open spec fn framed(c: Command) -> Seq<u8> {
    stuffed(wire(c)).push(0u8)
}

/// What a received buffer holds: the bytes before its first zero are unstuffed
/// and parsed. An empty buffer and broken stuffing are `BadEncoding`.
pub open spec fn decoded(frame: Seq<u8>) -> Result<Command, DecodeError> {
    if frame.len() == 0 {
        Err(DecodeError::BadEncoding)
    } else {
        match unstuffed(body_of(frame)) {
            None => Err(DecodeError::BadEncoding),
            Some(payload) => parsed(payload),
        }
    }
}

/// The buffer and the event after one byte. A byte that finds the buffer full
/// empties it; a zero closes the frame, which is decoded with the zero in it
/// and then dropped; any other byte is stored.
pub open spec fn step(buf: Seq<u8>, byte: u8) -> (Seq<u8>, FrameEvent) {
    if buf.len() >= FRAME_CAPACITY {
        (Seq::empty(), FrameEvent::Overflow)
    } else if byte == 0 {
        (
            Seq::empty(),
            match decoded(buf.push(byte)) {
                Ok(c) => FrameEvent::Complete(c),
                Err(e) => FrameEvent::DecodeError(e),
            },
        )
    } else {
        (buf.push(byte), FrameEvent::Pending)
    }
}

/// The buffer after a run of bytes, and the event of each byte in turn.
pub open spec fn fed(buf: Seq<u8>, bytes: Seq<u8>) -> (Seq<u8>, Seq<FrameEvent>)
    decreases bytes.len(),
{
    if bytes.len() == 0 {
        (buf, Seq::empty())
    } else {
        let (mid, events) = fed(buf, bytes.drop_last());
        let (end, event) = step(mid, bytes.last());
        (end, events.push(event))
    }
}

/// Writes the frame of a command.
pub fn encode(c: Command) -> (r: Vec<u8>)
    ensures
        r@ == framed(c),
{
    let payload = serialize(c);
    let mut out = stuff(payload.as_slice());
    out.push(0);
    out
}

/// Decodes a received buffer.
pub fn decode(frame: &[u8]) -> (r: Result<Command, DecodeError>)
    ensures
        r == decoded(frame@),
{
    if frame.len() == 0 {
        return Err(DecodeError::BadEncoding);
    }
    match unstuff(body(frame)) {
        None => Err(DecodeError::BadEncoding),
        Some(payload) => parse_command(payload.as_slice()),
    }
}

/// Collects the bytes of one frame at a time.
pub struct Framer {
    buf: FrameBuffer,
}

impl Framer {
    /// The bytes buffered so far.
    pub closed spec fn view(&self) -> Seq<u8> {
        self.buf@
    }

    /// A framer with nothing buffered.
    pub fn new() -> (r: Framer)
        ensures
            r@ == Seq::<u8>::empty(),
    {
        Framer { buf: FrameBuffer::new() }
    }

    /// Takes one byte of the stream.
    pub fn push(&mut self, byte: u8) -> (event: FrameEvent)
        ensures
            (final(self)@, event) == step(old(self)@, byte),
            final(self)@.len() <= FRAME_CAPACITY,
    {
        if !self.buf.push(byte) {
            self.buf.clear();
            return FrameEvent::Overflow;
        }
        if byte == 0 {
            let r = decode(self.buf.as_slice());
            self.buf.clear();
            match r {
                Ok(c) => FrameEvent::Complete(c),
                Err(e) => FrameEvent::DecodeError(e),
            }
        } else {
            FrameEvent::Pending
        }
    }

    /// Takes a run of bytes and reports the event of each.
    pub fn push_all(&mut self, bytes: &[u8]) -> (events: Vec<FrameEvent>)
        ensures
            (final(self)@, events@) == fed(old(self)@, bytes@),
    {
        let mut events: Vec<FrameEvent> = Vec::new();
        let mut i: usize = 0;
        assert(bytes@.take(0) =~= Seq::<u8>::empty());
        while i < bytes.len()
            invariant
                i <= bytes.len(),
                (self@, events@) == fed(old(self)@, bytes@.take(i as int)),
            decreases bytes.len() - i,
        {
            assert(bytes@.take(i + 1).drop_last() =~= bytes@.take(i as int));
            let event = self.push(bytes[i]);
            events.push(event);
            i = i + 1;
        }
        assert(bytes@.take(i as int) =~= bytes@);
        events
    }

    /// How many bytes are buffered.
    pub fn len(&self) -> (n: usize)
        ensures
            n == self@.len(),
    {
        self.buf.len()
    }

    /// Whether a frame has begun.
    pub fn state(&self) -> (s: FramerState)
        ensures
            s == if self@.len() == 0 {
                FramerState::Idle
            } else {
                FramerState::Accumulating
            },
    {
        if self.buf.is_empty() {
            FramerState::Idle
        } else {
            FramerState::Accumulating
        }
    }
}

/// As many `Pending` events as `n`.
pub open spec fn all_pending(n: nat) -> Seq<FrameEvent> {
    Seq::new(n, |i: int| FrameEvent::Pending)
}

/// Feeding two runs one after the other is feeding their concatenation.
pub proof fn lemma_fed_concat(buf: Seq<u8>, first: Seq<u8>, second: Seq<u8>)
    ensures
        fed(buf, first + second).0 == fed(fed(buf, first).0, second).0,
        fed(buf, first + second).1 == fed(buf, first).1 + fed(fed(buf, first).0, second).1,
    decreases second.len(),
{
    if second.len() == 0 {
        assert(first + second =~= first);
        assert(fed(buf, first).1 + Seq::<FrameEvent>::empty() =~= fed(buf, first).1);
    } else {
        lemma_fed_concat(buf, first, second.drop_last());
        assert((first + second).drop_last() =~= first + second.drop_last());
        assert((first + second).last() == second.last());
        let mid = fed(buf, first);
        let tail = fed(mid.0, second.drop_last());
        let event = step(tail.0, second.last()).1;
        assert((mid.1 + tail.1).push(event) =~= mid.1 + tail.1.push(event));
    }
}

/// A run of non-zero bytes that the buffer has room for is stored whole, and
/// every byte of it is `Pending`.
pub proof fn lemma_fed_stores(buf: Seq<u8>, bytes: Seq<u8>)
    requires
        buf.len() + bytes.len() <= FRAME_CAPACITY,
        forall|i: int| 0 <= i < bytes.len() ==> bytes[i] != 0,
    ensures
        fed(buf, bytes) == (buf + bytes, all_pending(bytes.len())),
    decreases bytes.len(),
{
    if bytes.len() == 0 {
        assert(buf + bytes =~= buf);
        assert(all_pending(0) =~= Seq::<FrameEvent>::empty());
    } else {
        let front = bytes.drop_last();
        lemma_fed_stores(buf, front);
        assert((buf + front).push(bytes.last()) =~= buf + bytes);
        assert(all_pending(front.len()).push(FrameEvent::Pending) =~= all_pending(bytes.len()));
    }
}

/// A frame is at most six bytes long, ends in its only zero, and decodes to
/// the command it was made from.
pub proof fn lemma_decode_framed(c: Command)
    ensures
        2 <= framed(c).len() <= 6,
        forall|i: int| 0 <= i < framed(c).len() - 1 ==> framed(c)[i] != 0,
        framed(c).last() == 0,
        decoded(framed(c)) == Ok::<Command, DecodeError>(c),
{
    let w = wire(c);
    reveal_with_fuel(crate::varint::varint_of, 3);
    assert(1 <= w.len() <= 4);
    lemma_stuffed_len(w, false);
    lemma_stuffed_has_no_zero(w, false);
    lemma_body_of_closed(w);
    lemma_unstuff_stuffed(w, false);
    lemma_parse_wire(c, Seq::empty());
    assert(w + Seq::<u8>::empty() =~= w);
}

/// The round trip: the frame of any command, pushed byte by byte into a framer
/// that holds nothing, is `Pending` up to its closing zero, which reports
/// `Complete` with that very command and leaves nothing buffered.
pub proof fn law_round_trip(c: Command)
    ensures
        fed(Seq::empty(), framed(c)) == (
            Seq::<u8>::empty(),
            all_pending((framed(c).len() - 1) as nat).push(FrameEvent::Complete(c)),
        ),
{
    let frame = framed(c);
    lemma_decode_framed(c);
    let front = frame.drop_last();
    lemma_fed_stores(Seq::empty(), front);
    assert(Seq::<u8>::empty() + front =~= front);
    assert(front.push(0u8) =~= frame);
}

/// The overflow law: once non-zero bytes have filled the buffer, the next
/// byte, whatever it is, reports `Overflow` and leaves nothing buffered, and
/// the bytes after it are treated as a framer that never held anything would
/// treat them.
pub proof fn law_overflow_discards(buf: Seq<u8>, bytes: Seq<u8>, extra: u8, more: Seq<u8>)
    requires
        buf.len() + bytes.len() == FRAME_CAPACITY,
        forall|i: int| 0 <= i < bytes.len() ==> bytes[i] != 0,
    ensures
        fed(buf, bytes.push(extra)) == (
            Seq::<u8>::empty(),
            all_pending(bytes.len()).push(FrameEvent::Overflow),
        ),
        fed(buf, bytes.push(extra) + more).0 == fed(Seq::empty(), more).0,
        fed(buf, bytes.push(extra) + more).1 == all_pending(bytes.len()).push(
            FrameEvent::Overflow,
        ) + fed(Seq::empty(), more).1,
{
    lemma_fed_stores(buf, bytes);
    assert(bytes.push(extra).drop_last() =~= bytes);
    lemma_fed_concat(buf, bytes.push(extra), more);
}

/// Whatever the byte, the buffer never grows past its capacity, and the
/// framer is back at an empty buffer after every event but `Pending`.
pub proof fn law_step_bounded(buf: Seq<u8>, byte: u8)
    ensures
        step(buf, byte).0.len() <= FRAME_CAPACITY,
        step(buf, byte).1 != FrameEvent::Pending ==> step(buf, byte).0 == Seq::<u8>::empty(),
        step(buf, byte).1 == FrameEvent::Pending ==> step(buf, byte).0 == buf.push(byte),
{
}

} // verus!
