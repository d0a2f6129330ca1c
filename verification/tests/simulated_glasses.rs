//! The whole driver, driven by a simulated pair of glasses.
//!
//! The command path, the frame parsing and the reader's decisions in one stack, against a head
//! movement whose ground truth is known exactly. Everything runs in simulated time, so a two-second
//! head turn takes microseconds and gives the same answer every run.

use viture_v2::sim::{expected_poses, measured, Failing, Simulated, Still, Trajectory};
use viture_v2::xr::{
    is_fatal, pending_word, read_info, start_streams, DeviceInfo, Session, Turn,
};
use viture_v2::{msg, Device, DisplayMode, Error, Event, Rate, Streams, Transport, FRAME_MAX};

/// The MsgID these glasses take a display mode under.
const SETTER: u16 = 0x3142;

/// Degrees, for assertions that are easier to judge than radians.
fn degrees(radians: f32) -> f32 {
    radians.to_degrees()
}

/// A head turning at a constant rate about an axis.
struct Turning {
    /// Radians per second.
    rate: f32,
    /// Unit axis in the body frame; `[0, 1, 0]` is a yaw.
    axis: [f32; 3],
}

impl Trajectory for Turning {
    fn at(&self, tick: u32, rate: Rate) -> [u32; 4] {
        let t = tick as f32 * (1.0 / rate.hz() as f32);
        let half = 0.5 * self.rate * t;
        let (s, c) = half.sin_cos();
        [c, self.axis[0] * s, self.axis[1] * s, self.axis[2] * s].map(f32::to_bits)
    }
}

/// Angle between two orientations, in radians.
fn angle_between(a: [f32; 4], b: [f32; 4]) -> f32 {
    let [aw, ax, ay, az] = a;
    let [bw, bx, by, bz] = b;
    let w = aw * bw + ax * bx + ay * by + az * bz;
    let x = aw * bx - ax * bw - ay * bz + az * by;
    let y = aw * by + ax * bz - ay * bw - az * bx;
    let z = aw * bz - ax * by + ay * bx - az * bw;
    let vector = (x * x + y * y + z * z).sqrt();
    2.0 * vector.atan2(w.abs())
}

/// Runs the device forward, returning the poses the driver saw.
fn collect_poses<J: Trajectory>(device: &mut Device<Simulated<J>>, samples: usize) -> Vec<[f32; 4]> {
    let mut poses = Vec::with_capacity(samples);
    while poses.len() < samples {
        match device.next_event(1_000_000) {
            Ok(Some(Event::Pose(p))) => poses.push(p.q.map(f32::from_bits)),
            Ok(Some(_)) | Ok(None) => {}
            Err(e) => panic!("event failed: {e:?}"),
        }
    }
    poses
}

fn still() -> Device<Simulated<Still>> {
    let mut glasses = Simulated::still();
    glasses.take_display_mode_under(SETTER);
    Device::new(glasses)
}

// -- The command path ---------------------------------------------------------

#[test]
fn starting_the_imu_reaches_the_device() {
    let mut device = Device::new(Simulated::still());
    device
        .set_imu(Streams::pose(), Rate::Hz120)
        .expect("the device should acknowledge");

    let state = device.transport().state();
    assert_eq!(state.streams, Streams::pose());
    assert_eq!(state.rate, Rate::Hz120);

    // And it went out as one IMU_CTRL frame, not as something the device merely
    // tolerated.
    let sent = device.transport().log();
    assert_eq!(sent.len(), 1);
    assert_eq!(sent[0].0, msg::IMU_CTRL);
    assert_eq!(sent[0].1, vec![1, 2]);
}

#[test]
fn no_events_arrive_until_the_stream_is_started() {
    // The device is silent until asked. A driver that assumed otherwise would
    // look fine here and hang on real hardware.
    let mut device = Device::new(Simulated::still());
    assert!(matches!(device.next_event(1_000_000), Ok(None)));

    device.set_imu(Streams::pose(), Rate::Hz120).unwrap();
    assert!(matches!(
        device.next_event(1_000_000),
        Ok(Some(Event::Pose(_)))
    ));
}

#[test]
fn a_display_mode_change_is_reflected_by_the_device() {
    let mut device = still();
    device.set_display_mode_raw(SETTER, 0x32).expect("acknowledged");
    assert_eq!(device.transport().state().display_mode, 0x32);
    assert_eq!(device.display_mode(), Ok(DisplayMode::Sbs3840x1080_60));
}

#[test]
fn the_static_facts_read_back() {
    let mut device = Device::new(Simulated::still());
    let mut buf = [0u8; 64];
    assert_eq!(device.firmware_version(&mut buf).unwrap(), "SIM-1.0.0");
    assert_eq!(device.brightness().unwrap(), 5);
    assert_eq!(device.volume().unwrap(), 60);
    assert!(device.worn().unwrap());
}

#[test]
fn a_dead_device_reports_an_error_rather_than_hanging() {
    let mut device = Device::new(Failing);
    assert!(device.set_imu(Streams::pose(), Rate::Hz120).is_err());
    assert!(device.next_event(1_000_000).is_err());
}

// -- The event path -----------------------------------------------------------

#[test]
fn a_still_head_produces_the_same_orientation_every_sample() {
    let mut device = Device::new(Simulated::new(Still::default()));
    device.set_imu(Streams::pose(), Rate::Hz120).unwrap();

    for q in collect_poses(&mut device, 240) {
        assert!(
            degrees(angle_between(q, [1.0, 0.0, 0.0, 0.0])) < 1e-3,
            "a still head drifted to {q:?}",
        );
    }
}

#[test]
fn a_turning_head_arrives_where_the_trajectory_says() {
    // One radian per second about Y for two seconds at 120 Hz.
    let rate = 1.0f32;
    let mut device = Device::new(Simulated::new(Turning {
        rate,
        axis: [0.0, 1.0, 0.0],
    }));
    device.set_imu(Streams::pose(), Rate::Hz120).unwrap();

    let poses = collect_poses(&mut device, 240);
    // The last sample is at t = 239/120 s, not 2 s: the first is at zero.
    let t = 239.0 / 120.0;
    let half = 0.5 * rate * t;
    let expected = [half.cos(), 0.0, half.sin(), 0.0];
    let error = degrees(angle_between(*poses.last().unwrap(), expected));
    assert!(error < 0.01, "off by {error}°");
}

#[test]
fn the_wire_format_survives_a_round_trip_of_every_sample() {
    // The simulator builds frames with the real builder and the driver reads
    // them with the real parser, so a header, checksum or payload mistake fails
    // here. Sweeping the whole rotation covers every sign and magnitude the
    // float encoding has to carry.
    let d = 1.0 / 3f32.sqrt();
    let mut device = Device::new(Simulated::new(Turning {
        rate: std::f32::consts::TAU,
        axis: [d, d, d],
    }));
    device.set_imu(Streams::pose(), Rate::Hz120).unwrap();

    for q in collect_poses(&mut device, 120) {
        let norm = (q[0] * q[0] + q[1] * q[1] + q[2] * q[2] + q[3] * q[3]).sqrt();
        assert!((norm - 1.0).abs() < 1e-5, "denormalised quaternion {q:?}");
    }
}

#[test]
fn a_stalled_stream_goes_quiet_without_erroring() {
    // A stream that stops while the device still answers is the failure the
    // watchdogs exist for; it must look like silence, not like a broken link.
    let mut device = Device::new(Simulated::new(Still::default()));
    device.set_imu(Streams::pose(), Rate::Hz120).unwrap();
    assert!(matches!(device.next_event(1_000), Ok(Some(Event::Pose(_)))));

    device.transport_mut().stall(true);
    for _ in 0..10 {
        assert!(matches!(device.next_event(1_000), Ok(None)));
    }

    device.transport_mut().stall(false);
    assert!(matches!(device.next_event(1_000), Ok(Some(Event::Pose(_)))));
}

#[test]
fn a_command_sent_mid_stream_is_answered_before_the_next_sample() {
    // The reader sends queued commands between reads, and a reply that arrived
    // behind a burst of poses would be read as an event. This is the ordering
    // that stops that.
    let mut device = still();
    device.set_imu(Streams::pose(), Rate::Hz120).unwrap();
    let _ = device.next_event(1_000);

    device.set_display_mode_raw(SETTER, 0x32).expect("acknowledged");
    assert_eq!(device.transport().state().display_mode, 0x32);
}

// -- A session ----------------------------------------------------------------

/// Opens the device the way a tracker does.
fn opened(mut glasses: Simulated<Still>) -> (Device<Simulated<Still>>, DeviceInfo, Session) {
    glasses.take_display_mode_under(SETTER);
    let mut device = Device::new(glasses);
    let info = read_info(&mut device);
    start_streams(&mut device, Streams::pose(), Rate::Hz120).expect("started");
    let session = Session::new(info.display_mode);
    (device, info, session)
}

/// The display modes that a run of commands asked for, in order.
fn modes_asked_for(sent: &[(u16, Vec<u8>)]) -> Vec<u8> {
    sent.iter()
        .filter(|(id, _)| *id == SETTER)
        .filter_map(|(_, payload)| payload.first().copied())
        .collect()
}

/// The panel is left the way the session found it.
///
/// Side-by-side is a rendering arrangement, not a display setting: the panel cuts every frame in
/// half and sends one to each eye, which is correct only while something is deliberately drawing a
/// stereo pair.
#[test]
fn the_panel_is_left_in_the_mode_the_session_found_it_in() {
    let mut glasses = Simulated::still();
    // A session that begins with the panel already splitting frames.
    glasses.set_display_mode(measured::MODE_SIDE_BY_SIDE);
    let (mut device, _, mut session) = opened(glasses);

    // Something asks for 2D mid-session, as the renderer does when it is not
    // drawing a stereo pair.
    let pending = pending_word(measured::MODE_2D);
    assert!(matches!(
        session.round(&mut device, SETTER, pending),
        Turn::Pose(_)
    ));
    for _ in 0..5 {
        session.round(&mut device, SETTER, 0);
    }
    session.close(&mut device, SETTER);

    // The last word on the panel must put back what was there, not leave the
    // mode whoever spoke last happened to want.
    let modes = modes_asked_for(device.transport().log());
    assert!(
        modes.contains(&measured::MODE_2D),
        "the mid-session request never reached the panel: {modes:02X?}",
    );
    assert_eq!(
        modes.last().copied(),
        Some(measured::MODE_SIDE_BY_SIDE),
        "the session ended without putting the panel back: {modes:02X?}",
    );
    assert_eq!(
        device.transport().state().display_mode,
        measured::MODE_SIDE_BY_SIDE
    );
    assert_eq!(device.transport().state().streams, Streams::off());
}

/// And a session that changes nothing says nothing: switching the mode renegotiates the video link,
/// which from inside the glasses is a black flash.
#[test]
fn a_session_that_left_the_panel_alone_does_not_speak_to_it_on_the_way_out() {
    let (mut device, _, mut session) = opened(Simulated::still());
    for _ in 0..7 {
        session.round(&mut device, SETTER, 0);
    }
    session.close(&mut device, SETTER);
    let modes = modes_asked_for(device.transport().log());
    assert!(
        modes.is_empty(),
        "the panel was spoken to for no reason: {modes:02X?}"
    );
}

#[test]
fn a_session_that_asked_for_what_was_there_puts_nothing_back() {
    let (mut device, _, mut session) = opened(Simulated::still());
    session.round(&mut device, SETTER, pending_word(measured::MODE_2D));
    session.close(&mut device, SETTER);
    assert_eq!(modes_asked_for(device.transport().log()), vec![0x31]);
}

/// Refuses everything it is sent from a point on, and otherwise passes on what the glasses say.
struct Deaf {
    inner: Simulated<Still>,
    hears: bool,
}

impl Transport for Deaf {
    fn send(&mut self, frame: &[u8]) -> Result<(), Error> {
        if self.hears {
            self.inner.send(frame)
        } else {
            Err(Error::Io(Some(5)))
        }
    }

    fn recv(&mut self, buf: &mut [u8; FRAME_MAX], timeout_ns: u64) -> Result<usize, Error> {
        self.inner.recv(buf, timeout_ns)
    }
}

#[test]
fn a_refused_request_back_is_made_good_at_the_end() {
    let mut inner = Simulated::still();
    inner.take_display_mode_under(SETTER);
    let mut device = Device::new(Deaf { inner, hears: true });
    start_streams(&mut device, Streams::pose(), Rate::Hz120).expect("started");
    let mut session = Session::new(measured::MODE_2D as i32);
    session.round(&mut device, SETTER, pending_word(measured::MODE_SIDE_BY_SIDE));
    // The way back does not get through.
    device.transport_mut().hears = false;
    session.round(&mut device, SETTER, pending_word(measured::MODE_2D));
    assert_eq!(
        device.transport().inner.state().display_mode,
        measured::MODE_SIDE_BY_SIDE
    );
    device.transport_mut().hears = true;
    assert_eq!(session.closing_mode(), Some(measured::MODE_2D));
    session.close(&mut device, SETTER);
    assert_eq!(
        device.transport().inner.state().display_mode,
        measured::MODE_2D
    );
}

#[test]
fn a_panel_in_an_unknown_mode_is_not_put_back() {
    let mut session = Session::new(-1);
    session.strayed = true;
    assert_eq!(session.closing_mode(), None);
}

#[test]
fn opening_reads_the_static_facts_and_starts_the_stream() {
    let (device, info, session) = opened(Simulated::still());
    assert_eq!(info.firmware, "SIM-1.0.0");
    assert_eq!(info.brightness, 5);
    assert_eq!(info.volume, 60);
    assert_eq!(info.display_mode, 0x31);
    assert!(info.worn);
    assert_eq!(session.found_mode, 0x31);
    assert!(device.transport().state().streams.has(Streams::pose()));
}

#[test]
fn a_display_mode_change_reaches_the_device_through_the_reader() {
    let (mut device, _, mut session) = opened(Simulated::still());
    session.round(&mut device, SETTER, pending_word(0x32));
    assert_eq!(device.transport().state().display_mode, 0x32);
    // And only once.
    session.round(&mut device, SETTER, 0);
    assert_eq!(modes_asked_for(device.transport().log()), vec![0x32]);
}

#[test]
fn requests_are_told_from_silence() {
    for mode in [0u8, 1, 0x31, 0xFF] {
        let (mut device, _, mut session) = opened(Simulated::still());
        session.round(&mut device, SETTER, pending_word(mode));
        assert_eq!(device.transport().state().display_mode, mode);
        assert_eq!(session.strayed, mode != 0x31);
        // A word without the mark carries nothing, whatever else it holds.
        session.round(&mut device, SETTER, 0xFE32);
        assert_eq!(modes_asked_for(device.transport().log()), vec![mode]);
    }
}

/// Fails one read in `every`, and otherwise passes on what the glasses say.
struct Flaky<T> {
    inner: T,
    every: u32,
    reads: u32,
    error: Error,
}

impl<T: Transport> Transport for Flaky<T> {
    fn send(&mut self, frame: &[u8]) -> Result<(), Error> {
        self.inner.send(frame)
    }

    fn recv(&mut self, buf: &mut [u8; FRAME_MAX], timeout_ns: u64) -> Result<usize, Error> {
        self.reads += 1;
        if self.reads % self.every == 0 {
            return Err(self.error);
        }
        self.inner.recv(buf, timeout_ns)
    }
}

fn flaky(every: u32, error: Error) -> Device<Flaky<Simulated<Still>>> {
    let mut glasses = Simulated::still();
    glasses.take_display_mode_under(SETTER);
    Device::new(Flaky {
        inner: glasses,
        every,
        reads: 0,
        error,
    })
}

#[test]
fn a_cable_that_fails_one_read_in_five_does_not_end_a_session() {
    let mut device = flaky(5, Error::Io(Some(5)));
    start_streams(&mut device, Streams::pose(), Rate::Hz120).expect("started");
    let mut session = Session::new(0x31);
    let mut poses = 0;
    for _ in 0..1000 {
        match session.round(&mut device, SETTER, 0) {
            Turn::Pose(_) => poses += 1,
            Turn::Failed(code) => assert_eq!(code, 5),
            other => panic!("{other:?}"),
        }
    }
    assert!(poses >= 799, "only {poses} poses");
}

#[test]
fn a_cable_that_never_works_ends_a_session_on_the_fortieth_read() {
    let mut device = flaky(1, Error::Checksum);
    let mut session = Session::new(0x31);
    for round in 1..40 {
        assert!(
            matches!(session.round(&mut device, SETTER, 0), Turn::Failed(_)),
            "round {round}"
        );
    }
    assert!(matches!(session.round(&mut device, SETTER, 0), Turn::Over(_)));
}

#[test]
fn an_unplugged_device_ends_a_session_at_once() {
    let mut session = Session::new(0x31);
    let mut device = Device::new(Failing);
    assert!(matches!(session.round(&mut device, SETTER, 0), Turn::Over(19)));
    assert!(is_fatal(&Error::Io(Some(19))));
    assert!(!is_fatal(&Error::Io(Some(11))));
    assert!(!is_fatal(&Error::Timeout));
}

#[test]
fn a_success_clears_the_errors_before_it() {
    let mut session = Session::new(-1);
    for _ in 0..39 {
        assert!(matches!(
            session.observe(Err(Error::Timeout)),
            Turn::Failed(_)
        ));
    }
    assert!(matches!(session.observe(Ok(None)), Turn::Quiet));
    assert_eq!(session.consecutive_errors, 0);
    assert!(matches!(
        session.observe(Ok(Some(Event::Other(7)))),
        Turn::Other
    ));
}

#[test]
fn starting_is_tried_again() {
    // Every second read fails; the reply gets through on the second attempt.
    let mut device = flaky(2, Error::Io(Some(5)));
    let _ = device.next_event(1);
    assert!(start_streams(&mut device, Streams::pose(), Rate::Hz120).is_ok());
    // A device that is gone stays gone.
    let mut gone = Device::new(Failing);
    assert_eq!(
        start_streams(&mut gone, Streams::pose(), Rate::Hz120),
        Err(Error::Io(Some(19)))
    );
}

#[test]
fn a_device_that_says_nothing_is_unknown() {
    let info = read_info(&mut Device::new(Failing));
    assert_eq!(info.firmware, "unknown");
    assert_eq!((info.brightness, info.volume, info.display_mode), (-1, -1, -1));
    assert!(!info.worn);
    assert_eq!(DeviceInfo::default().firmware, "");
}

// -- The simulation itself ----------------------------------------------------

#[test]
fn the_driver_sees_what_the_trajectory_says() {
    let head = Turning {
        rate: 2.0,
        axis: [1.0, 0.0, 0.0],
    };
    let expected = expected_poses(&head, Rate::Hz240, 100);
    assert_eq!(expected.len(), 100);
    let mut device = Device::new(Simulated::new(head));
    device.set_imu(Streams::pose(), Rate::Hz240).unwrap();
    for (i, q) in expected.iter().enumerate() {
        match device.next_event(1) {
            Ok(Some(Event::Pose(p))) => {
                assert_eq!(p.q, *q);
                assert_eq!(p.tick, i as u32);
            }
            other => panic!("{other:?}"),
        }
    }
    assert_eq!(device.transport().ticks(), 100);
}

#[test]
fn an_unknown_command_is_acknowledged() {
    let mut device = Device::new(Simulated::still());
    let mut out = [0u8; 8];
    assert_eq!(device.request(0x1234, &[1, 2, 3], &mut out, 1_000_000_000), Ok(0));
    assert_eq!(device.transport().log()[0], (0x1234, vec![1, 2, 3]));
    // Without a MsgID to take it under, a display mode is nothing special.
    assert_eq!(device.set_display_mode_raw(SETTER, 0x32), Ok(()));
    assert_eq!(device.transport().state().display_mode, 0x31);
}

#[test]
fn two_dimensions_stop_at_sixty_hertz() {
    let fastest = measured::modes_for(measured::MODE_2D)
        .iter()
        .map(|m| f32::from_bits(m.fps))
        .fold(f32::MIN, f32::max);
    assert!(fastest <= 60.5, "2D now offers {fastest} Hz");
}

#[test]
fn side_by_side_is_the_only_place_the_wide_mode_exists() {
    // The bug this guards: a mode chosen once, at startup, is chosen from the
    // 2D list — which has nothing 3840 wide in it — and then never looked at
    // again after the panel switches and re-advertises.
    let flat = measured::modes_for(measured::MODE_2D);
    let wide = measured::modes_for(measured::MODE_SIDE_BY_SIDE);
    assert!(
        !flat.iter().any(|m| m.width > 1920),
        "a wide mode appeared in the 2D list",
    );
    assert!(
        wide.iter().any(|m| m.width == 3840),
        "side-by-side has no 3840-wide mode to offer",
    );
    let shapes: Vec<(u32, u32, f32)> = flat
        .iter()
        .map(|m| (m.width, m.height, f32::from_bits(m.fps)))
        .collect();
    assert_eq!(
        shapes,
        vec![
            (1920, 1080, 60.0),
            (1920, 1080, 59.9402),
            (640, 480, 59.940475),
            (768, 480, 59.940475),
        ]
    );
    assert_eq!(wide.len(), 2);
    // An unknown mode byte falls back to the conservative list rather than
    // inventing one. 0x41 to 0x43 were tried on the hardware and came back
    // with the 2D modes under fresh ids.
    assert_eq!(measured::modes_for(0x41), flat);
}

#[test]
fn the_measured_numbers_are_the_ones_that_were_counted() {
    // 592 poses in 4.981 seconds.
    let counted = 592.0f64 / 4.981;
    assert!((measured::POSE_RATE_DECIHERTZ as f64 / 10.0 - counted).abs() < 0.05);
    assert_eq!(measured::USB_VENDOR_ID, 0x35CA);
    assert_eq!(measured::USB_PRODUCT_ID, 0x1301);
}
