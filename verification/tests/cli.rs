//! The command line's words, its reader, its consumer and the phone's samples.

use viture_v2::cli::{
    feed, rate_for, wakes, Backend, Collected, Command, Consumer, Feed, PointerStep, Pointing,
    Sample, Tally, CENTRE_AFTER_NS, CURSOR_EVERY_NS, SHOW_EVERY_NS,
};
use viture_v2::pointer::{Reading, SampleReader};
use viture_v2::text;
use viture_v2::xr::{rate_for_hz, streams_for, was_whole, write_begins, write_ends};
use viture_v2::{Error, Event, Pose, Rate, Raw, Streams};

#[test]
fn words_ask_for_what_they_say() {
    assert_eq!(Command::of(None), Command::Info);
    let words = [
        ("probe", Command::Probe),
        ("info", Command::Info),
        ("pose", Command::Pose),
        ("raw", Command::Raw),
        ("pointer", Command::Pointer),
        ("Pose", Command::Unknown),
        ("", Command::Unknown),
    ];
    for (word, command) in words {
        assert_eq!(Command::of(Some(word)), command, "{word:?}");
    }
    assert_eq!(Backend::of(Some("hidraw")), Backend::Hidraw);
    assert_eq!(Backend::of(Some("usbfs")), Backend::Usbfs);
    assert_eq!(Backend::of(Some("uring")), Backend::Uring);
    assert_eq!(Backend::of(None), Backend::Uring);
    assert_eq!(Backend::Uring.fallback(), Some(Backend::Hidraw));
    assert_eq!(Backend::Hidraw.fallback(), None);
    assert_eq!(Backend::Usbfs.fallback(), None);
    assert_eq!(Command::of_setting(Some("pointer")), Command::Pointer);
    assert_eq!(Command::of_setting(Some("raw")), Command::Pose);
    assert_eq!(Command::of_setting(None), Command::Pose);
    let rates = [
        (None, Rate::Hz120),
        (Some("60"), Rate::Hz60),
        (Some("90"), Rate::Hz90),
        (Some("120"), Rate::Hz120),
        (Some("240"), Rate::Hz240),
        (Some("500"), Rate::Hz500),
        (Some("1000"), Rate::Hz1000),
        (Some("75"), Rate::Hz120),
    ];
    for (word, rate) in rates {
        assert_eq!(rate_for(word), rate, "{word:?}");
    }
    for (hz, rate) in [(60, Rate::Hz60), (90, Rate::Hz90), (240, Rate::Hz240), (500, Rate::Hz120)] {
        assert_eq!(rate_for_hz(hz), rate);
    }
}

#[test]
fn streams_are_chosen_by_their_setting() {
    assert_eq!(streams_for(None), Streams::pose());
    assert_eq!(streams_for(Some("raw")), Streams::raw());
    assert_eq!(streams_for(Some("both")).0, 3);
    assert_eq!(streams_for(Some("poses")), Streams::pose());
}

#[test]
fn the_reader_keeps_samples_and_stops_on_errors() {
    let pose = Pose { tick: 1, q: [0; 4] };
    let raw = Raw { tick: 2, gyro: [0; 3], accel: [0; 3] };
    assert!(matches!(
        feed(Ok(Some(Event::Pose(pose)))),
        Feed::Keep(Sample::Pose(p)) if p == pose
    ));
    assert!(matches!(
        feed(Ok(Some(Event::Raw(raw)))),
        Feed::Keep(Sample::Raw(r)) if r == raw
    ));
    assert!(matches!(feed(Ok(Some(Event::Other(9)))), Feed::Skip));
    assert!(matches!(feed(Ok(None)), Feed::Wake));
    assert!(matches!(feed(Err(Error::Timeout)), Feed::Stop(Error::Timeout)));
    assert!(wakes(8, 8) && !wakes(7, 8));
}

#[test]
fn collections_are_tallied() {
    let mut tally = Tally::new();
    assert!(!tally.note(0));
    assert!(tally.note(5));
    assert!(tally.note(3));
    assert_eq!((tally.total, tally.batches, tally.biggest), (8, 2, 5));
    let mut full = Tally { total: u64::MAX, ..tally };
    full.note(9);
    assert_eq!((full.total, full.biggest), (u64::MAX, 9));
}

#[test]
fn the_consumer_parks_shows_and_goes_on() {
    let mut consumer = Consumer::new();
    assert_eq!(consumer.collected(0, 5 * SHOW_EVERY_NS), Collected::Park);
    assert_eq!(consumer, Consumer::new());
    assert_eq!(consumer.collected(4, SHOW_EVERY_NS - 1), Collected::GoOn);
    assert_eq!(consumer.collected(2, SHOW_EVERY_NS), Collected::Show);
    assert_eq!(consumer.collected(2, 2 * SHOW_EVERY_NS - 1), Collected::GoOn);
    assert_eq!(consumer.collected(1, 2 * SHOW_EVERY_NS + 7), Collected::Show);
    assert_eq!(consumer.shown_ns, 2 * SHOW_EVERY_NS + 7);
    assert_eq!((consumer.tally.total, consumer.tally.batches, consumer.tally.biggest), (9, 4, 4));
}

#[test]
fn the_centre_is_taken_once() {
    let mut pointing = Pointing::new();
    let step = |recentre, show| PointerStep { recentre, show };
    assert_eq!(pointing.next(CENTRE_AFTER_NS, 5), step(false, false));
    assert_eq!(pointing.next(CENTRE_AFTER_NS + 1, 0), step(false, false));
    assert_eq!(pointing.next(CENTRE_AFTER_NS + 1, 1), step(true, true));
    assert_eq!(pointing.next(CENTRE_AFTER_NS + 2, 1), step(false, false));
    let later = CENTRE_AFTER_NS + 1 + CURSOR_EVERY_NS;
    assert_eq!(pointing.next(later, 1), step(false, true));
}

#[test]
fn the_newest_orientation_is_the_head_s() {
    let pose = |tick| Sample::Pose(Pose { tick, q: [tick; 4] });
    let raw = Sample::Raw(Raw { tick: 9, gyro: [0; 3], accel: [0; 3] });
    let mut pointing = Pointing::new();
    assert_eq!(pointing.head.q.map(f32::from_bits), [1.0, 0.0, 0.0, 0.0]);
    assert!(!pointing.collected(&[]));
    assert!(!pointing.collected(&[raw, raw]));
    assert_eq!(pointing.head_samples, 0);
    assert!(pointing.collected(&[pose(1), pose(2), raw]));
    assert_eq!((pointing.head.tick, pointing.head_samples), (2, 3));
}

/// The number a line holds, commas and blanks aside.
fn number(line: &str) -> Option<u32> {
    line.trim().trim_end_matches(',').parse::<f32>().ok().map(f32::to_bits)
}

fn read(reader: &mut SampleReader, text: &str) -> Vec<Reading> {
    text.lines()
        .filter_map(|line| reader.feed(line.as_bytes(), number(line)))
        .collect()
}

#[test]
fn samples_are_collected_from_the_sensor_s_lines() {
    let mut reader = SampleReader::new();
    let text = "{\n  \"Rotation Vector\": {\n    \"values\": [\n      0.5,\n      -0.25,\n      1e-3,\n      0.75\n    ]\n  }\n}\n";
    let samples = read(&mut reader, text);
    assert_eq!(samples.len(), 1);
    let s = samples[0];
    assert_eq!([s.x, s.y, s.z].map(f32::from_bits), [0.5, -0.25, 1e-3]);
    assert_eq!(s.w.map(f32::from_bits), Some(0.75));
    // The next sample starts over, and may have no fourth number.
    let samples = read(&mut reader, "\"values\": [\n1,\n2,\n3\n]\n");
    assert_eq!(samples[0].w, None);
    assert_eq!(f32::from_bits(samples[0].x), 1.0);
    // Two numbers are no sample, and a bracket outside of one is nothing.
    assert!(read(&mut reader, "\"values\": [\n1,\n2\n]\n]\n4\n").is_empty());
    // A fifth number is ignored, and so is a line that is no number.
    let samples = read(&mut reader, "\"values\": [\n1,\nx\n2,\n3,\n4,\n5\n]\n");
    assert_eq!(samples[0].w.map(f32::from_bits), Some(4.0));
}

#[test]
fn texts_are_searched_and_read() {
    assert!(text::same("abc", "abc") && !text::same("abc", "abd") && !text::same("ab", "abc"));
    assert!(text::equal(b"ab", b"ab") && !text::equal(b"ab", b"abc"));
    assert!(text::contains(b"a values b", b"values") && !text::contains(b"value", b"values"));
    assert!(text::contains(b"", b""));
    assert!(text::starts_with(b"HID_ID=3", b"HID_ID=") && !text::starts_with(b"HID", b"HID_ID="));
    assert!(text::ends_with(b"a:b", b":b") && !text::ends_with(b"b", b":b"));
    assert_eq!(text::before_nul(b"ab\0c\0"), b"ab");
    assert_eq!(text::before_nul(b"ab"), b"ab");
    assert_eq!(text::number(b" 35cA\n", 16, 0xFFFF), Some(0x35CA));
    assert_eq!(text::number(b"+7", 10, 9), Some(7));
    // Whatever the standard library takes for white space goes, and nothing else does.
    for c in (0..=0x3100u32).filter_map(char::from_u32) {
        let framed = format!("{c}{c}8{c}");
        let expected = framed.trim().parse::<u32>().ok();
        assert_eq!(text::number(framed.as_bytes(), 10, u32::MAX), expected, "{c:?}");
    }
    assert_eq!(text::number(b"10", 10, 9), None);
    assert_eq!(text::number(b"", 10, 9), None);
    assert_eq!(text::number(b"+", 10, 9), None);
    assert_eq!(text::number(b"-1", 10, 9), None);
    assert_eq!(text::number(b"1 2", 10, 99), None);
    assert_eq!(text::number(b"4294967295", 10, u32::MAX), Some(u32::MAX));
    assert_eq!(text::number(b"4294967296", 10, u32::MAX), None);
    assert_eq!(text::number(b"0000000000000000000012", 10, 99), Some(12));
    let mut out = b"n=".to_vec();
    text::push_decimal(&mut out, 0);
    text::push_decimal(&mut out, 9_870);
    assert_eq!(out, b"n=09870");
    assert_eq!(text::ascii_bytes("plain"), b"plain");
}

/// A reader that looks before and after knows whether the words were whole.
#[test]
fn a_torn_read_is_noticed() {
    for version in [0u32, 2, u32::MAX - 1] {
        assert!(was_whole(version, version));
        let writing = write_begins(version);
        assert!(!was_whole(writing, writing));
        assert!(!was_whole(version, writing));
        assert!(!was_whole(version, write_ends(version)));
        assert!(was_whole(write_ends(version), write_ends(version)));
    }
}
