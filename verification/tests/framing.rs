use rtframe::cobs::{body, stuff, unstuff};
use rtframe::command::{parse_command, serialize, Command, DecodeError};
use rtframe::frame_buffer::{FrameBuffer, FRAME_CAPACITY};
use rtframe::framer::{decode, encode, FrameEvent, Framer, FramerState};
use rtframe::varint::{read_u16, read_u32, write_varint};

fn push_frame(framer: &mut Framer, frame: &[u8]) -> FrameEvent {
    let (last, front) = frame.split_last().unwrap();
    for b in front {
        assert_eq!(framer.push(*b), FrameEvent::Pending);
    }
    framer.push(*last)
}

#[test]
fn on_round_trips_byte_by_byte() {
    let frame = encode(Command::On);
    assert_eq!(frame, vec![1u8, 1, 0]);
    let mut framer = Framer::new();
    assert_eq!(framer.push(frame[0]), FrameEvent::Pending);
    assert_eq!(framer.push(frame[1]), FrameEvent::Pending);
    assert_eq!(framer.state(), FramerState::Accumulating);
    assert_eq!(framer.len(), 2);
    assert_eq!(framer.push(frame[2]), FrameEvent::Complete(Command::On));
    assert_eq!(framer.len(), 0);
    assert_eq!(framer.state(), FramerState::Idle);
}

#[test]
fn empty_frames_are_decode_errors() {
    let mut framer = Framer::new();
    assert_eq!(framer.push(0), FrameEvent::DecodeError(DecodeError::Malformed));
    assert_eq!(framer.state(), FramerState::Idle);
    assert_eq!(framer.push(0), FrameEvent::DecodeError(DecodeError::Malformed));
    assert_eq!(framer.state(), FramerState::Idle);
    assert_eq!(framer.len(), 0);
    assert_eq!(push_frame(&mut framer, &encode(Command::Off)), FrameEvent::Complete(Command::Off));
}

#[test]
fn every_command_round_trips_through_the_framer() {
    let mut framer = Framer::new();
    let mut commands = vec![Command::On, Command::Off];
    for level in 0..=u16::MAX {
        commands.push(Command::SetLevel(level));
    }
    for secs in 0..=u8::MAX {
        commands.push(Command::SetInterval(secs));
    }
    for command in commands {
        let frame = encode(command);
        assert!(frame.len() >= 2 && frame.len() <= 6);
        assert_eq!(*frame.last().unwrap(), 0);
        assert!(frame[..frame.len() - 1].iter().all(|b| *b != 0));
        assert_eq!(push_frame(&mut framer, &frame), FrameEvent::Complete(command));
        assert_eq!(framer.len(), 0);
        assert_eq!(decode(&frame), Ok(command));
    }
}

#[test]
fn frames_have_the_documented_bytes() {
    assert_eq!(encode(Command::On), vec![1, 1, 0]);
    assert_eq!(encode(Command::Off), vec![2, 1, 0]);
    assert_eq!(encode(Command::SetLevel(0)), vec![2, 2, 1, 0]);
    assert_eq!(encode(Command::SetLevel(127)), vec![3, 2, 127, 0]);
    assert_eq!(encode(Command::SetLevel(128)), vec![4, 2, 0x80, 1, 0]);
    assert_eq!(encode(Command::SetLevel(300)), vec![4, 2, 0xac, 2, 0]);
    assert_eq!(encode(Command::SetLevel(16383)), vec![4, 2, 0xff, 0x7f, 0]);
    assert_eq!(encode(Command::SetLevel(16384)), vec![5, 2, 0x80, 0x80, 1, 0]);
    assert_eq!(encode(Command::SetLevel(u16::MAX)), vec![5, 2, 0xff, 0xff, 3, 0]);
    assert_eq!(encode(Command::SetInterval(0)), vec![2, 3, 1, 0]);
    assert_eq!(encode(Command::SetInterval(5)), vec![3, 3, 5, 0]);
    assert_eq!(encode(Command::SetInterval(255)), vec![3, 3, 255, 0]);
}

#[test]
fn wire_bytes_before_stuffing() {
    assert_eq!(serialize(Command::On), vec![0]);
    assert_eq!(serialize(Command::Off), vec![1]);
    assert_eq!(serialize(Command::SetLevel(300)), vec![2, 0xac, 2]);
    assert_eq!(serialize(Command::SetInterval(9)), vec![3, 9]);
    assert_eq!(parse_command(&[2, 0xac, 2]), Ok(Command::SetLevel(300)));
    assert_eq!(parse_command(&[3, 9]), Ok(Command::SetInterval(9)));
}

#[test]
fn overflow_discards_what_was_buffered() {
    let mut framer = Framer::new();
    for i in 0..FRAME_CAPACITY {
        assert_eq!(framer.push(0x40 + i as u8), FrameEvent::Pending);
        assert_eq!(framer.len(), i + 1);
    }
    assert_eq!(framer.push(0x77), FrameEvent::Overflow);
    assert_eq!(framer.len(), 0);
    assert_eq!(framer.state(), FramerState::Idle);
    let frame = encode(Command::SetLevel(300));
    assert_eq!(push_frame(&mut framer, &frame), FrameEvent::Complete(Command::SetLevel(300)));
}

#[test]
fn overflow_on_the_delimiter_itself() {
    let mut framer = Framer::new();
    for _ in 0..FRAME_CAPACITY {
        assert_eq!(framer.push(9), FrameEvent::Pending);
    }
    assert_eq!(framer.push(0), FrameEvent::Overflow);
    assert_eq!(framer.len(), 0);
    assert_eq!(framer.push(0), FrameEvent::DecodeError(DecodeError::Malformed));
}

#[test]
fn overflow_from_a_buffer_that_is_part_full() {
    let mut framer = Framer::new();
    assert_eq!(push_frame(&mut framer, &encode(Command::On)), FrameEvent::Complete(Command::On));
    for _ in 0..FRAME_CAPACITY {
        assert_eq!(framer.push(1), FrameEvent::Pending);
    }
    assert_eq!(framer.push(1), FrameEvent::Overflow);
    assert_eq!(framer.push(1), FrameEvent::Pending);
    assert_eq!(framer.len(), 1);
}

#[test]
fn a_frame_that_fills_the_buffer_is_decoded() {
    // Fifteen bytes and the delimiter: the payload opens with `Off`, and what
    // follows a command is not looked at.
    let mut frame = vec![15u8, 1];
    frame.extend([7u8; 13]);
    frame.push(0);
    assert_eq!(frame.len(), FRAME_CAPACITY);
    let mut framer = Framer::new();
    assert_eq!(push_frame(&mut framer, &frame), FrameEvent::Complete(Command::Off));
    assert_eq!(framer.len(), 0);
}

#[test]
fn broken_stuffing_is_bad_encoding() {
    let mut framer = Framer::new();
    assert_eq!(
        push_frame(&mut framer, &[5, 1, 0]),
        FrameEvent::DecodeError(DecodeError::BadEncoding)
    );
    assert_eq!(framer.len(), 0);
    assert_eq!(decode(&[5, 1, 0]), Err(DecodeError::BadEncoding));
    assert_eq!(decode(&[3, 1]), Err(DecodeError::BadEncoding));
    assert_eq!(decode(&[]), Err(DecodeError::BadEncoding));
}

#[test]
fn unknown_tags_and_short_payloads_are_malformed() {
    // tag 4
    assert_eq!(decode(&[2, 4, 0]), Err(DecodeError::Malformed));
    // tag 200 in two bytes
    assert_eq!(decode(&[3, 0xc8, 1, 0]), Err(DecodeError::Malformed));
    // a level without its number
    assert_eq!(decode(&[2, 2, 0]), Err(DecodeError::Malformed));
    // an interval without its byte
    assert_eq!(decode(&[2, 3, 0]), Err(DecodeError::Malformed));
    // a level whose number runs on past three bytes
    assert_eq!(decode(&[5, 2, 0xff, 0xff, 0xff, 0]), Err(DecodeError::Malformed));
    // a level whose third byte is too large for sixteen bits
    assert_eq!(decode(&[5, 2, 0x80, 0x80, 4, 0]), Err(DecodeError::Malformed));
    // a level whose number is cut off
    assert_eq!(decode(&[3, 2, 0x80, 0]), Err(DecodeError::Malformed));
    // nothing at all
    assert_eq!(decode(&[0]), Err(DecodeError::Malformed));
    assert_eq!(parse_command(&[]), Err(DecodeError::Malformed));
}

#[test]
fn decode_looks_at_the_bytes_before_the_first_zero() {
    assert_eq!(decode(&[1, 1, 0, 9, 9]), Ok(Command::On));
    assert_eq!(decode(&[1, 1]), Ok(Command::On));
    assert_eq!(decode(&[3, 3, 5]), Ok(Command::SetInterval(5)));
    assert_eq!(body(&[4, 5, 0, 6]), &[4, 5]);
    assert_eq!(body(&[4, 5]), &[4, 5]);
    assert_eq!(body(&[0, 5]), &[] as &[u8]);
}

#[test]
fn longer_tags_and_numbers_are_read_as_written() {
    // `On` with its tag spread over two bytes, then the level 5 over two bytes.
    assert_eq!(parse_command(&[0x80, 0x00]), Ok(Command::On));
    assert_eq!(parse_command(&[2, 0x85, 0x00]), Ok(Command::SetLevel(5)));
    assert_eq!(parse_command(&[0x83, 0x80, 0x80, 0x80, 0x00, 42]), Ok(Command::SetInterval(42)));
    assert_eq!(parse_command(&[0x83, 0x80, 0x80, 0x80, 0x10, 42]), Err(DecodeError::Malformed));
}

#[test]
fn push_all_reports_each_byte() {
    let mut framer = Framer::new();
    let mut bytes = encode(Command::SetInterval(7));
    bytes.extend(encode(Command::On));
    bytes.extend([9, 9]);
    let events = framer.push_all(&bytes);
    assert_eq!(
        events,
        vec![
            FrameEvent::Pending,
            FrameEvent::Pending,
            FrameEvent::Pending,
            FrameEvent::Complete(Command::SetInterval(7)),
            FrameEvent::Pending,
            FrameEvent::Pending,
            FrameEvent::Complete(Command::On),
            FrameEvent::Pending,
            FrameEvent::Pending,
        ]
    );
    assert_eq!(framer.len(), 2);
}

#[test]
fn stuffing_by_hand() {
    assert_eq!(stuff(&[]), Vec::<u8>::new());
    assert_eq!(stuff(&[0]), vec![1, 1]);
    assert_eq!(stuff(&[0, 0]), vec![1, 1, 1]);
    assert_eq!(stuff(&[7]), vec![2, 7]);
    assert_eq!(stuff(&[7, 0]), vec![2, 7, 1]);
    assert_eq!(stuff(&[0, 7]), vec![1, 2, 7]);
    assert_eq!(stuff(&[1, 2, 0, 3]), vec![3, 1, 2, 2, 3]);
    let run = vec![9u8; 254];
    let mut expected = vec![255u8];
    expected.extend(&run);
    assert_eq!(stuff(&run), expected);
    let mut longer = run.clone();
    longer.push(8);
    let mut expected = vec![255u8];
    expected.extend(&run);
    expected.extend([2, 8]);
    assert_eq!(stuff(&longer), expected);
    let mut with_zero = run.clone();
    with_zero.push(0);
    let mut expected = vec![255u8];
    expected.extend(&run);
    expected.extend([1, 1]);
    assert_eq!(stuff(&with_zero), expected);
}

#[test]
fn unstuffing_by_hand() {
    assert_eq!(unstuff(&[]), Some(vec![]));
    assert_eq!(unstuff(&[1]), Some(vec![]));
    assert_eq!(unstuff(&[1, 1]), Some(vec![0]));
    assert_eq!(unstuff(&[3, 1, 2, 2, 3]), Some(vec![1, 2, 0, 3]));
    assert_eq!(unstuff(&[2]), None);
    assert_eq!(unstuff(&[2, 7, 3, 1]), None);
    assert_eq!(unstuff(&[2, 0]), Some(vec![0]));
    assert_eq!(unstuff(&[0]), None);
    let mut chain = vec![255u8];
    chain.extend([9u8; 254]);
    chain.extend([2, 8]);
    let mut expected = vec![9u8; 254];
    expected.push(8);
    assert_eq!(unstuff(&chain), Some(expected));
}

#[test]
fn stuffing_round_trips_with_and_without_zeros() {
    let mut seed: u32 = 0x2545_f491;
    for len in 0..700usize {
        let mut data = Vec::with_capacity(len);
        for _ in 0..len {
            seed = seed.wrapping_mul(1_664_525).wrapping_add(1_013_904_223);
            let r = (seed >> 16) as u8;
            data.push(if len % 3 == 0 { r | 1 } else if r < 40 { 0 } else { r });
        }
        let stuffed = stuff(&data);
        assert!(stuffed.iter().all(|b| *b != 0));
        assert!(stuffed.len() <= data.len() + data.len() / 254 + 1);
        assert_eq!(unstuff(&stuffed), Some(data));
    }
}

#[test]
fn numbers_in_base_128() {
    let mut out = vec![0xeeu8];
    write_varint(0, &mut out);
    write_varint(127, &mut out);
    write_varint(128, &mut out);
    write_varint(300, &mut out);
    write_varint(u32::MAX, &mut out);
    assert_eq!(out, vec![0xee, 0, 127, 0x80, 1, 0xac, 2, 0xff, 0xff, 0xff, 0xff, 0x0f]);
    assert_eq!(read_u32(&out, 1), Some((0, 1)));
    assert_eq!(read_u32(&out, 2), Some((127, 1)));
    assert_eq!(read_u32(&out, 3), Some((128, 2)));
    assert_eq!(read_u16(&out, 5), Some((300, 2)));
    assert_eq!(read_u32(&out, 7), Some((u32::MAX, 5)));
    assert_eq!(read_u16(&out, 7), None);
    assert_eq!(read_u32(&out, 12), None);
    assert_eq!(read_u32(&out, 13), None);
    assert_eq!(read_u32(&[0xff, 0xff, 0xff, 0xff, 0x10], 0), None);
    assert_eq!(read_u32(&[0xff, 0xff, 0xff, 0xff, 0x8f], 0), None);
    assert_eq!(read_u16(&[0xff, 0xff, 0x03], 0), Some((65535, 3)));
    assert_eq!(read_u16(&[0xff, 0xff, 0x04], 0), None);
    assert_eq!(read_u16(&[0xff, 0xff, 0x83], 0), None);
    assert_eq!(read_u16(&[0x80], 0), None);
    assert_eq!(read_u16(&[0x80, 0x00], 0), Some((0, 2)));
}

#[test]
fn the_buffer_takes_sixteen_bytes() {
    let mut buffer = FrameBuffer::new();
    assert!(buffer.is_empty());
    for i in 0..FRAME_CAPACITY {
        assert!(buffer.push(i as u8 + 1));
        assert_eq!(buffer.len(), i + 1);
    }
    assert_eq!(buffer.as_slice(), &[1, 2, 3, 4, 5, 6, 7, 8, 9, 10, 11, 12, 13, 14, 15, 16]);
    assert!(!buffer.push(17));
    assert_eq!(buffer.len(), FRAME_CAPACITY);
    assert_eq!(buffer.as_slice()[15], 16);
    buffer.clear();
    assert!(buffer.is_empty());
    assert_eq!(buffer.as_slice(), &[] as &[u8]);
    assert!(buffer.push(42));
    assert_eq!(buffer.as_slice(), &[42]);
}
