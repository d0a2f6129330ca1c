//! Requests and their replies, against scripted transports.

use viture_v2::clock::low_nanos;
use viture_v2::device::{reply_body, time_left};
use viture_v2::{
    build, msg, Device, Error, Event, Rate, Streams, Transport, FRAME_MAX, REPLY_TIMEOUT_NS,
    RESPONSE_OFFSET,
};

/// Hands out prepared reports, one per receive, and then nothing.
struct Script {
    reports: Vec<Result<Vec<u8>, Error>>,
    sent: Vec<Vec<u8>>,
    waits: Vec<u64>,
}

impl Script {
    fn of(reports: Vec<Result<Vec<u8>, Error>>) -> Device<Script> {
        Device::new(Script {
            reports,
            sent: Vec::new(),
            waits: Vec::new(),
        })
    }
}

impl Transport for Script {
    fn send(&mut self, frame: &[u8]) -> Result<(), Error> {
        self.sent.push(frame.to_vec());
        Ok(())
    }

    fn recv(&mut self, buf: &mut [u8; FRAME_MAX], timeout_ns: u64) -> Result<usize, Error> {
        self.waits.push(timeout_ns);
        if self.reports.is_empty() {
            return Ok(0);
        }
        let report = self.reports.remove(0)?;
        buf[..report.len()].copy_from_slice(&report);
        Ok(report.len())
    }
}

fn report(msg_id: u16, payload: &[u8]) -> Vec<u8> {
    let mut buf = [0u8; FRAME_MAX];
    build(&mut buf, msg_id, payload).unwrap().to_vec()
}

fn reply(msg_id: u16, payload: &[u8]) -> Vec<u8> {
    report(msg_id + RESPONSE_OFFSET, payload)
}

#[test]
fn a_request_skips_what_is_not_its_reply() {
    let mut broken = reply(msg::BRIGHTNESS, &[0, 9]);
    broken[6] ^= 1;
    let mut device = Script::of(vec![
        Ok(report(msg::EVT_POSE, &[0; 24])),
        Ok(reply(msg::VOLUME, &[0, 7])),
        Ok(broken),
        Ok(vec![]),
        Ok(vec![1, 2, 3]),
        Ok(reply(msg::BRIGHTNESS, &[0, 3])),
    ]);
    assert_eq!(device.brightness(), Ok(3));
    assert_eq!(
        device.transport().sent,
        vec![vec![0x10, 0, 0x22, 0x31, 0, 0, 0, 0]]
    );
    assert_eq!(device.transport().waits.len(), 6);
    assert!(device
        .transport()
        .waits
        .iter()
        .all(|&w| 0 < w && w <= REPLY_TIMEOUT_NS));
}

#[test]
fn a_refused_request_gives_the_status() {
    let mut device = Script::of(vec![Ok(reply(msg::IMU_CTRL, &[5]))]);
    assert_eq!(
        device.set_imu(Streams::pose(), Rate::Hz1000),
        Err(Error::Status(5))
    );
    assert_eq!(device.transport().sent[0][8..], [1, 5]);
}

#[test]
fn a_reply_without_a_status_is_malformed() {
    let mut device = Script::of(vec![Ok(reply(msg::VOLUME, &[]))]);
    assert_eq!(device.volume(), Err(Error::Malformed));
    // And so is a value that is not there.
    let mut device = Script::of(vec![Ok(reply(msg::DUTY_CYCLE, &[0]))]);
    assert_eq!(device.duty_cycle(), Err(Error::Malformed));
}

#[test]
fn a_value_is_the_last_byte_of_its_reply() {
    let mut device = Script::of(vec![Ok(reply(msg::DUTY_CYCLE, &[0, 8, 9, 80]))]);
    assert_eq!(device.duty_cycle(), Ok(80));
    let mut device = Script::of(vec![Ok(reply(msg::WEAR_STATUS, &[0, 0]))]);
    assert_eq!(device.worn(), Ok(false));
}

#[test]
fn a_reply_that_does_not_fit_is_an_overflow() {
    let mut device = Script::of(vec![Ok(reply(0x3000, &[0, 1, 2, 3]))]);
    let mut out = [9u8; 2];
    assert_eq!(
        device.request(0x3000, &[], &mut out, REPLY_TIMEOUT_NS),
        Err(Error::Overflow)
    );
    assert_eq!(out, [9, 9]);
    // A payload that fits no frame never reaches the transport.
    let mut device = Script::of(vec![]);
    assert_eq!(
        device.request(0x3000, &[0; 57], &mut out, REPLY_TIMEOUT_NS),
        Err(Error::Overflow)
    );
    assert!(device.transport().sent.is_empty());
}

#[test]
fn a_request_that_nobody_answers_times_out() {
    let mut device = Script::of(vec![]);
    let mut out = [0u8; 4];
    let start = std::time::Instant::now();
    assert_eq!(
        device.request(0x3000, &[], &mut out, 3_000_000),
        Err(Error::Timeout)
    );
    let took = start.elapsed();
    assert!(took.as_nanos() >= 3_000_000, "gave up after {took:?}");
    // Each wait is for what is left, so they shrink.
    let waits = &device.transport().waits;
    assert!(waits.windows(2).all(|w| w[1] <= w[0]));
    assert!(waits[0] <= 3_000_000);
    // No time at all is no wait at all.
    let mut device = Script::of(vec![Ok(reply(0x3000, &[0]))]);
    assert_eq!(
        device.request(0x3000, &[], &mut out, 0),
        Err(Error::Timeout)
    );
    assert!(device.transport().waits.is_empty());
}

#[test]
fn time_runs_out_to_the_nanosecond() {
    assert_eq!(time_left(10, 0), Some(10));
    assert_eq!(time_left(10, 9), Some(1));
    assert_eq!(time_left(10, 10), None);
    assert_eq!(time_left(10, u64::MAX), None);
    assert_eq!(time_left(0, 0), None);
    assert_eq!(time_left(u64::MAX, 1), Some(u64::MAX - 1));
}

#[test]
fn a_failing_link_ends_a_request_at_once() {
    let mut device = Script::of(vec![Err(Error::Io(Some(5)))]);
    assert_eq!(device.brightness(), Err(Error::Io(Some(5))));
    assert_eq!(device.transport().waits.len(), 1);
}

#[test]
fn texts_end_at_their_first_nul_and_are_utf_8() {
    let mut buf = [0u8; 32];
    let mut device = Script::of(vec![Ok(reply(msg::SERIAL, b"\0AB12\0junk"))]);
    assert_eq!(device.serial(&mut buf), Ok("AB12"));
    let mut device = Script::of(vec![Ok(reply(msg::VERSION, b"\0v\xc3\xa9 1"))]);
    assert_eq!(device.firmware_version(&mut buf), Ok("v\u{e9} 1"));
    let mut device = Script::of(vec![Ok(reply(msg::VERSION, b"\0\xff\xfe"))]);
    assert_eq!(device.firmware_version(&mut buf), Err(Error::Malformed));
    let mut device = Script::of(vec![Ok(reply(msg::VERSION, b"\0"))]);
    assert_eq!(device.firmware_version(&mut buf), Ok(""));
}

#[test]
fn replies_are_recognised_in_reports() {
    let want = 0x3000 + RESPONSE_OFFSET;
    assert_eq!(reply_body(want, &report(want, &[0, 4, 2])), Some(Ok(&[4u8, 2][..])));
    assert_eq!(reply_body(want, &report(want, &[0])), Some(Ok(&[][..])));
    assert_eq!(reply_body(want, &report(want, &[])), Some(Err(Error::Malformed)));
    assert_eq!(reply_body(want, &report(want, &[7, 0])), Some(Err(Error::Status(7))));
    assert_eq!(reply_body(want, &report(want + 1, &[0])), None);
    assert_eq!(reply_body(want, &[0x10]), None);
}

#[test]
fn the_next_event_is_one_report() {
    let mut device = Script::of(vec![
        Ok(vec![]),
        Ok(report(0x7310, &[])),
        Ok(vec![9; 8]),
        Err(Error::Io(None)),
    ]);
    assert_eq!(device.next_event(7), Ok(None));
    assert_eq!(device.next_event(7), Ok(Some(Event::Other(0x7310))));
    assert_eq!(device.next_event(7), Err(Error::Malformed));
    assert_eq!(device.next_event(7), Err(Error::Io(None)));
    assert_eq!(device.transport().waits, vec![7, 7, 7, 7]);
}

#[test]
fn nanoseconds_keep_their_low_bits() {
    assert_eq!(low_nanos(0), 0);
    assert_eq!(low_nanos(1_500_000_000), 1_500_000_000);
    assert_eq!(low_nanos(u64::MAX as u128), u64::MAX);
    assert_eq!(low_nanos(u64::MAX as u128 + 8), 7);
}

#[test]
fn a_text_is_read_into_the_buffer_and_an_error_leaves_it_alone() {
    let mut buf = [9u8; 12];
    let mut device = Script::of(vec![Ok(reply(msg::SERIAL, b"\0AB\0xy"))]);
    assert_eq!(device.serial(&mut buf), Ok("AB"));
    assert_eq!(&buf, b"AB\0xy\t\t\t\t\t\t\t");
    // What is no text has been read all the same.
    let mut device = Script::of(vec![Ok(reply(msg::VERSION, b"\0\xff"))]);
    assert_eq!(device.firmware_version(&mut buf), Err(Error::Malformed));
    assert_eq!(&buf, b"\xffB\0xy\t\t\t\t\t\t\t");
    for refusal in [
        Ok(reply(msg::SERIAL, &[3, 65])),
        Ok(reply(msg::SERIAL, &[])),
        Ok(reply(msg::SERIAL, &[0; 14])),
        Err(Error::Io(Some(5))),
    ] {
        let mut buf = [9u8; 12];
        let mut device = Script::of(vec![refusal]);
        assert!(device.get_ascii(msg::SERIAL, &mut buf).is_err());
        assert_eq!(buf, [9; 12]);
    }
}
