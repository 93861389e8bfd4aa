use rtframe::cobs::{body, stuff, unstuff};
use rtframe::command::{parse_command, serialize, Command, DecodeError};
use rtframe::framer::{decode, encode};

fn next(seed: &mut u32) -> u8 {
    *seed = seed.wrapping_mul(1_664_525).wrapping_add(1_013_904_223);
    (*seed >> 16) as u8
}

fn outside_unstuff(frame: &[u8]) -> Option<Vec<u8>> {
    let mut copy = frame.to_vec();
    match cobs::decode_in_place(&mut copy) {
        Ok(n) => Some(copy[..n].to_vec()),
        Err(_) => None,
    }
}

fn outside_parse(payload: &[u8]) -> Result<Command, DecodeError> {
    let (tag, rest) =
        postcard::take_from_bytes::<u32>(payload).map_err(|_| DecodeError::Malformed)?;
    match tag {
        0 => Ok(Command::On),
        1 => Ok(Command::Off),
        2 => postcard::take_from_bytes::<u16>(rest)
            .map(|(level, _)| Command::SetLevel(level))
            .map_err(|_| DecodeError::Malformed),
        3 => postcard::take_from_bytes::<u8>(rest)
            .map(|(secs, _)| Command::SetInterval(secs))
            .map_err(|_| DecodeError::Malformed),
        _ => Err(DecodeError::Malformed),
    }
}

fn outside_decode(frame: &[u8]) -> Result<Command, DecodeError> {
    match outside_unstuff(frame) {
        Some(payload) => outside_parse(&payload),
        None => Err(DecodeError::BadEncoding),
    }
}

#[test]
fn stuffing_is_what_the_cobs_crate_writes() {
    let mut seed: u32 = 7;
    for len in 0..800usize {
        let mut data = Vec::with_capacity(len);
        for _ in 0..len {
            let r = next(&mut seed);
            data.push(if len % 4 == 1 { r | 1 } else if r < 32 { 0 } else { r });
        }
        let mut theirs = vec![0u8; cobs::max_encoding_length(len) + 1];
        let n = cobs::encode(&data, &mut theirs);
        assert_eq!(stuff(&data), theirs[..n].to_vec(), "payload of {} bytes", len);
    }
}

#[test]
fn unstuffing_is_what_the_cobs_crate_reads() {
    for a in 0..=255u8 {
        assert_eq!(unstuff(body(&[a])), outside_unstuff(&[a]));
        for b in 0..=255u8 {
            assert_eq!(unstuff(body(&[a, b])), outside_unstuff(&[a, b]));
        }
    }
    let mut seed: u32 = 99;
    for round in 0..60_000u32 {
        let len = 1 + (round % 12) as usize;
        let mut frame = Vec::with_capacity(len);
        for _ in 0..len {
            let r = next(&mut seed);
            frame.push(if r < 200 { r % 8 } else { r });
        }
        assert_eq!(unstuff(body(&frame)), outside_unstuff(&frame), "frame {:?}", frame);
    }
}

#[test]
fn frames_are_what_postcard_writes() {
    assert_eq!(encode(Command::On), postcard::to_stdvec_cobs(&0u32).unwrap());
    assert_eq!(encode(Command::Off), postcard::to_stdvec_cobs(&1u32).unwrap());
    for level in 0..=u16::MAX {
        assert_eq!(serialize(Command::SetLevel(level)), postcard::to_stdvec(&(2u32, level)).unwrap());
        if level % 7 == 0 || level < 600 || level > 65000 {
            assert_eq!(
                encode(Command::SetLevel(level)),
                postcard::to_stdvec_cobs(&(2u32, level)).unwrap()
            );
        }
    }
    for secs in 0..=u8::MAX {
        assert_eq!(
            encode(Command::SetInterval(secs)),
            postcard::to_stdvec_cobs(&(3u32, secs)).unwrap()
        );
    }
}

#[test]
fn payloads_are_read_as_postcard_reads_them() {
    for a in 0..=255u8 {
        assert_eq!(parse_command(&[a]), outside_parse(&[a]));
        for b in 0..=255u8 {
            assert_eq!(parse_command(&[a, b]), outside_parse(&[a, b]));
        }
    }
    for b in 0..=255u8 {
        for c in 0..=255u8 {
            for d in [0u8, 1, 3, 4, 0x7f, 0x80, 0xff] {
                assert_eq!(parse_command(&[2, b, c, d]), outside_parse(&[2, b, c, d]));
            }
        }
    }
    let mut seed: u32 = 1234;
    for round in 0..60_000u32 {
        let len = (round % 8) as usize;
        let mut payload = Vec::with_capacity(len);
        for i in 0..len {
            let r = next(&mut seed);
            payload.push(if i == 0 && r < 128 { r % 5 } else if r < 100 { r | 0x80 } else { r });
        }
        assert_eq!(parse_command(&payload), outside_parse(&payload), "payload {:?}", payload);
    }
}

#[test]
fn frames_are_decoded_as_postcard_decodes_them() {
    for a in 0..=255u8 {
        assert_eq!(decode(&[a]), outside_decode(&[a]));
        for b in 0..=255u8 {
            assert_eq!(decode(&[a, b]), outside_decode(&[a, b]));
            assert_eq!(decode(&[a, b, 0]), outside_decode(&[a, b, 0]));
        }
    }
    let mut seed: u32 = 4321;
    for round in 0..60_000u32 {
        let len = 1 + (round % 9) as usize;
        let mut frame = Vec::with_capacity(len + 1);
        for _ in 0..len {
            let r = next(&mut seed);
            frame.push(if r < 180 { 1 + r % 6 } else { r });
        }
        if round % 2 == 0 {
            frame.push(0);
        }
        assert_eq!(decode(&frame), outside_decode(&frame), "frame {:?}", frame);
    }
}
