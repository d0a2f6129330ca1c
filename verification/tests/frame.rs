//! Frames on the wire: building, parsing, and what an event carries.

use viture_v2::wire;
use viture_v2::{
    build, msg, parse, DisplayMode, Error, Event, Pose, Rate, Raw, Streams, FRAME_MAX, HEADER_LEN,
    PREAMBLE, RESPONSE_OFFSET,
};

/// Against the real capture: open_imu(POSE, 120 Hz).
#[test]
fn builds_imu_command_like_the_sdk() {
    let mut buf = [0u8; FRAME_MAX];
    let f = build(
        &mut buf,
        msg::IMU_CTRL,
        &[Streams::pose().0, Rate::Hz120.code()],
    )
    .unwrap();
    assert_eq!(
        f,
        &[0x10, 0x00, 0x01, 0x03, 0x02, 0x00, 0x03, 0x00, 0x01, 0x02]
    );
}

#[test]
fn builds_query_without_payload() {
    let mut buf = [0u8; FRAME_MAX];
    let f = build(&mut buf, msg::BRIGHTNESS, &[]).unwrap();
    assert_eq!(f, &[0x10, 0x00, 0x22, 0x31, 0x00, 0x00, 0x00, 0x00]);
}

#[test]
fn parses_brightness_reply() {
    let bytes = [0x10, 0x00, 0x22, 0x51, 0x02, 0x00, 0x03, 0x00, 0x00, 0x03];
    let f = parse(&bytes).unwrap();
    assert_eq!(f.msg_id, msg::BRIGHTNESS + RESPONSE_OFFSET);
    assert_eq!(f.payload, &[0x00, 0x03]);
}

#[test]
fn rejects_bad_checksum() {
    let bytes = [0x10, 0x00, 0x22, 0x51, 0x02, 0x00, 0xFF, 0x00, 0x00, 0x03];
    assert!(matches!(parse(&bytes), Err(Error::Checksum)));
}

/// Pose packet from the capture; the quaternion must be normalised.
#[test]
fn parses_pose_event() {
    let mut bytes = vec![0x10, 0x00, 0x08, 0x73, 0x18, 0x00, 0x00, 0x00];
    let payload: [u8; 24] = [
        0x26, 0x01, 0x00, 0x00, 0x59, 0xd6, 0x21, 0x00, 0xdd, 0xe3, 0x2b, 0x3e, 0x52, 0x5d, 0x7c,
        0x3f, 0xdd, 0x45, 0x9a, 0x3b, 0xe8, 0x27, 0x52, 0x3a,
    ];
    let sum = payload.iter().fold(0u16, |a, &b| a.wrapping_add(b as u16));
    bytes[6..8].copy_from_slice(&sum.to_le_bytes());
    bytes.extend_from_slice(&payload);

    let f = parse(&bytes).unwrap();
    let pose = Pose::parse(f.payload).unwrap();
    assert_eq!(pose.tick, 0x0021_d659);
    let n = pose
        .q
        .iter()
        .map(|&bits| f32::from_bits(bits))
        .map(|v| v * v)
        .sum::<f32>()
        .sqrt();
    assert!((n - 1.0).abs() < 1e-3, "|q| = {n}");
}

/// What is built is read back, whatever follows it in the buffer, and for every length that fits.
#[test]
fn every_built_frame_reads_back() {
    for len in 0..=(FRAME_MAX - HEADER_LEN) {
        let payload: Vec<u8> = (0..len).map(|i| (i * 37 + 11) as u8).collect();
        let mut buf = [0xA5u8; FRAME_MAX];
        let built = build(&mut buf, 0x7308, &payload).unwrap().len();
        assert_eq!(built, HEADER_LEN + len);
        for end in [built, FRAME_MAX] {
            let f = parse(&buf[..end]).unwrap();
            assert_eq!(f.msg_id, 0x7308);
            assert_eq!(f.payload, &payload[..]);
        }
        if built < FRAME_MAX {
            assert_eq!(buf[built], 0xA5, "wrote past the frame");
        }
    }
}

#[test]
fn a_payload_that_does_not_fit_is_refused_and_nothing_is_written() {
    let mut buf = [0x5Au8; FRAME_MAX];
    let payload = [0u8; FRAME_MAX - HEADER_LEN + 1];
    assert_eq!(build(&mut buf, 1, &payload).err(), Some(Error::Overflow));
    assert_eq!(buf, [0x5Au8; FRAME_MAX]);
}

#[test]
fn reports_that_are_no_frames_are_malformed() {
    assert!(matches!(parse(&[]), Err(Error::Malformed)));
    assert!(matches!(parse(&[0x10, 0, 1, 3, 0, 0, 0]), Err(Error::Malformed)));
    // Another preamble.
    assert!(matches!(
        parse(&[0x11, 0, 1, 3, 0, 0, 0, 0]),
        Err(Error::Malformed)
    ));
    // A length that points past the end.
    assert!(matches!(
        parse(&[0x10, 0, 1, 3, 1, 0, 0, 0]),
        Err(Error::Malformed)
    ));
    assert_eq!(PREAMBLE.to_le_bytes(), [0x10, 0]);
}

#[test]
fn one_altered_payload_byte_is_caught() {
    let mut buf = [0u8; FRAME_MAX];
    let payload = [1u8, 2, 3, 4, 5];
    let n = build(&mut buf, msg::EVT_POSE, &payload).unwrap().len();
    for at in HEADER_LEN..n {
        for flip in 1..=255u8 {
            let mut report = buf[..n].to_vec();
            report[at] ^= flip;
            assert!(matches!(parse(&report), Err(Error::Checksum)));
        }
    }
}

#[test]
fn the_checksum_wraps_around() {
    // Fifty-six bytes of 0xFF are 14280, which needs its second byte.
    let mut buf = [0u8; FRAME_MAX];
    let payload = [0xFFu8; FRAME_MAX - HEADER_LEN];
    build(&mut buf, 1, &payload).unwrap();
    assert_eq!(u16::from_le_bytes([buf[6], buf[7]]), 14_280);
    // And past sixteen bits the sum starts over: 300 of them are 76500, less 65536.
    let mut long = vec![0x10, 0, 1, 0, 44, 1, 0, 0];
    long.extend_from_slice(&[0xFF; 300]);
    long[6..8].copy_from_slice(&(76_500u32 as u16).to_le_bytes());
    assert_eq!(parse(&long).unwrap().payload.len(), 300);
}

#[test]
fn streams_join_and_are_found_again() {
    let both = Streams::pose().with(Streams::raw());
    assert_eq!((Streams::off().0, Streams::pose().0, Streams::raw().0), (0, 1, 2));
    assert_eq!(both.0, 3);
    assert!(both.has(Streams::pose()) && both.has(Streams::raw()));
    assert!(!Streams::pose().has(Streams::raw()));
    assert!(!Streams::off().has(Streams::pose()));
}

#[test]
fn rates_have_their_code_and_their_frequency() {
    let all = [
        (Rate::Hz60, 0, 60),
        (Rate::Hz90, 1, 90),
        (Rate::Hz120, 2, 120),
        (Rate::Hz240, 3, 240),
        (Rate::Hz500, 4, 500),
        (Rate::Hz1000, 5, 1000),
    ];
    for (rate, code, hz) in all {
        assert_eq!((rate.code(), rate.hz()), (code, hz));
    }
}

#[test]
fn display_modes_have_their_bytes() {
    let all = [
        (0x31, DisplayMode::P1080_60),
        (0x32, DisplayMode::Sbs3840x1080_60),
        (0x33, DisplayMode::P1080_90),
        (0x34, DisplayMode::P1080_120),
        (0x35, DisplayMode::Sbs3840x1080_90),
    ];
    for (raw, mode) in all {
        assert_eq!(DisplayMode::from_raw(raw), mode);
        assert_eq!(mode.raw(), raw);
    }
    for raw in (0..=255u8).filter(|v| !(0x31..=0x35).contains(v)) {
        assert_eq!(DisplayMode::from_raw(raw), DisplayMode::Unknown);
    }
    assert_eq!(DisplayMode::Unknown.raw(), 0);
}

#[test]
fn short_events_are_malformed() {
    assert_eq!(Pose::parse(&[0; 23]).err(), Some(Error::Malformed));
    assert_eq!(Raw::parse(&[0; 33]).err(), Some(Error::Malformed));
    assert!(Pose::parse(&[0; 24]).is_ok());
    assert!(Raw::parse(&[0; 34]).is_ok());
}

/// A raw event has a `u16` before its floats.
#[test]
fn raw_readings_start_two_bytes_later() {
    let mut payload = vec![0u8; 34];
    payload[4..8].copy_from_slice(&77u32.to_le_bytes());
    for (i, v) in [1.5f32, -2.0, 0.25, 9.0, -0.5, 1e-3].iter().enumerate() {
        payload[10 + 4 * i..14 + 4 * i].copy_from_slice(&v.to_le_bytes());
    }
    let raw = Raw::parse(&payload).unwrap();
    assert_eq!(raw.tick, 77);
    assert_eq!(raw.gyro.map(f32::from_bits), [1.5, -2.0, 0.25]);
    assert_eq!(raw.accel.map(f32::from_bits), [9.0, -0.5, 1e-3]);
}

#[test]
fn a_report_is_an_event_of_its_own_kind() {
    let mut buf = [0u8; FRAME_MAX];
    assert_eq!(Event::read(&[]), Ok(None));

    let n = build(&mut buf, msg::EVT_POSE, &[0; 24]).unwrap().len();
    assert!(matches!(Event::read(&buf[..n]), Ok(Some(Event::Pose(_)))));

    let n = build(&mut buf, msg::EVT_RAW, &[0; 34]).unwrap().len();
    assert!(matches!(Event::read(&buf[..n]), Ok(Some(Event::Raw(_)))));

    let n = build(&mut buf, 0x7310, &[0; 3]).unwrap().len();
    assert_eq!(Event::read(&buf[..n]), Ok(Some(Event::Other(0x7310))));

    // Too short for what it says it is, and not a frame at all.
    let n = build(&mut buf, msg::EVT_RAW, &[0; 24]).unwrap().len();
    assert_eq!(Event::read(&buf[..n]), Err(Error::Malformed));
    buf[6] ^= 1;
    assert_eq!(Event::read(&buf[..n]), Err(Error::Checksum));
    assert_eq!(Event::read(&[0x10]), Err(Error::Malformed));
}

/// What an error says, with the words that the system has for it.
fn text(e: Error) -> String {
    let words = match e {
        Error::Io(Some(code)) => std::io::Error::from_raw_os_error(code).to_string(),
        _ => "no such node".to_string(),
    };
    String::from_utf8(e.message(words.as_bytes())).unwrap()
}

#[test]
fn every_error_says_what_it_is() {
    let all = [
        (Error::Io(None), "I/O: no such node"),
        (Error::Malformed, "malformed frame"),
        (Error::Checksum, "checksum mismatch"),
        (Error::Status(0), "device reports status 0"),
        (Error::Status(255), "device reports status 255"),
        (Error::Timeout, "timed out"),
        (Error::Overflow, "payload too large for buffer"),
    ];
    for (error, says) in all {
        assert_eq!(text(error), says);
    }
    let gone = std::io::Error::from_raw_os_error(19);
    assert_eq!(text(Error::Io(Some(19))), format!("I/O: {gone}"));
}

#[test]
fn numbers_are_little_endian() {
    let bytes = [0x78, 0x56, 0x34, 0x12];
    assert_eq!(wire::u16_at(&bytes, 1), 0x3456);
    assert_eq!(wire::u32_at(&bytes, 0), 0x1234_5678);
    let mut out = vec![9u8];
    wire::push_u32(&mut out, 0x1234_5678);
    wire::push_u64(&mut out, 0x0102_0304_0506_0708);
    wire::push_all(&mut out, &[1, 2]);
    assert_eq!(
        out,
        [9, 0x78, 0x56, 0x34, 0x12, 8, 7, 6, 5, 4, 3, 2, 1, 1, 2]
    );
}
