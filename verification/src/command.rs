//! The closed set of commands that travel over the wire.

use crate::varint::{
    lemma_varint_round_trip, read_u16, read_u32, u16_at, u32_at, varint_at, varint_bound,
    varint_of, write_varint,
};
use vstd::prelude::*;

verus! {

/// A command, as the sender encodes it and the receiver decodes it.
#[derive(Clone, Copy, Debug, PartialEq, Eq, Structural)]
pub enum Command {
    /// Switch the actuator fully on.
    On,
    /// Switch the actuator off.
    Off,
    /// Set a continuous level.
    SetLevel(u16),
    /// Set the period of the periodic task, in seconds.
    SetInterval(u8),
}

/// Why a received frame gave no command.
#[derive(Clone, Copy, Debug, PartialEq, Eq, Structural)]
pub enum DecodeError {
    /// The frame is empty or its byte stuffing is broken.
    BadEncoding,
    /// The unstuffed payload has an unknown tag or ends too early.
    Malformed,
}

/// The bytes of a command before stuffing: the variant's index as a base-128
/// number, then the level as a base-128 number or the interval as one byte.
pub open spec fn wire(c: Command) -> Seq<u8> {
    match c {
        Command::On => seq![0u8],
        Command::Off => seq![1u8],
        Command::SetLevel(level) => seq![2u8] + varint_of(level as nat),
        Command::SetInterval(secs) => seq![3u8, secs],
    }
}

/// What an unstuffed payload means. The tag is read as a 32-bit base-128
/// number, the level as a 16-bit one; bytes after the command are not looked at.
pub open spec fn parsed(p: Seq<u8>) -> Result<Command, DecodeError> {
    match u32_at(p) {
        None => Err(DecodeError::Malformed),
        Some((tag, n)) => {
            if tag == 0 {
                Ok(Command::On)
            } else if tag == 1 {
                Ok(Command::Off)
            } else if tag == 2 {
                match u16_at(p.skip(n as int)) {
                    Some((level, _)) => Ok(Command::SetLevel(level as u16)),
                    None => Err(DecodeError::Malformed),
                }
            } else if tag == 3 {
                if n < p.len() {
                    Ok(Command::SetInterval(p[n as int]))
                } else {
                    Err(DecodeError::Malformed)
                }
            } else {
                Err(DecodeError::Malformed)
            }
        },
    }
}

/// Writes a command as `wire` lays it out.
pub fn serialize(c: Command) -> (r: Vec<u8>)
    ensures
        r@ == wire(c),
{
    let mut out: Vec<u8> = Vec::new();
    match c {
        Command::On => {
            out.push(0);
        },
        Command::Off => {
            out.push(1);
        },
        Command::SetLevel(level) => {
            out.push(2);
            write_varint(level as u32, &mut out);
        },
        Command::SetInterval(secs) => {
            out.push(3);
            out.push(secs);
        },
    }
    assert(out@ =~= wire(c));
    out
}

/// Reads a command from an unstuffed payload.
pub fn parse_command(p: &[u8]) -> (r: Result<Command, DecodeError>)
    ensures
        r == parsed(p@),
{
    assert(p@.skip(0) =~= p@);
    match read_u32(p, 0) {
        None => Err(DecodeError::Malformed),
        Some((tag, n)) => {
            if tag == 0 {
                Ok(Command::On)
            } else if tag == 1 {
                Ok(Command::Off)
            } else if tag == 2 {
                match read_u16(p, n) {
                    Some((level, _)) => Ok(Command::SetLevel(level)),
                    None => Err(DecodeError::Malformed),
                }
            } else if tag == 3 {
                if n < p.len() {
                    Ok(Command::SetInterval(p[n]))
                } else {
                    Err(DecodeError::Malformed)
                }
            } else {
                Err(DecodeError::Malformed)
            }
        },
    }
}

/// Parsing what `wire` wrote gives the command back, whatever follows it.
pub proof fn lemma_parse_wire(c: Command, rest: Seq<u8>)
    ensures
        parsed(wire(c) + rest) == Ok::<Command, DecodeError>(c),
{
    let p = wire(c) + rest;
    reveal_with_fuel(varint_at, 2);
    match c {
        Command::On => {
            assert(p[0] == 0);
        },
        Command::Off => {
            assert(p[0] == 1);
        },
        Command::SetLevel(level) => {
            assert(p[0] == 2);
            assert(p.skip(1) =~= varint_of(level as nat) + rest);
            reveal_with_fuel(varint_bound, 4);
            lemma_varint_round_trip(level as nat, rest, 3, 3);
        },
        Command::SetInterval(secs) => {
            assert(p[0] == 3);
            assert(p[1] == secs);
        },
    }
}

} // verus!
