//! What the transports hand to the kernel, and what they make of its answers.

use viture_v2::hidraw;
use viture_v2::sys::{
    call_outcome, enter_outcome, ioc, poll_outcome, raw_mode, wrap, Outcome, PollFd, Termios,
    Timespec, Waited, ECHO, ICANON, POLLIN, POLLOUT, VMIN, VTIME,
};
use viture_v2::uring;
use viture_v2::usbfs;
use viture_v2::{Error, FRAME_MAX};

#[test]
fn return_values_mean_what_the_kernel_means() {
    assert_eq!(wrap(7), Ok(7));
    assert_eq!(wrap(-4), Err(4));
    assert_eq!(wrap(-4095), Err(4095));
    assert_eq!(call_outcome(0), Outcome::Done(0));
    assert_eq!(call_outcome(-4), Outcome::Again);
    assert_eq!(call_outcome(-19), Outcome::Failed(19));
    assert_eq!(call_outcome(-62), Outcome::Failed(62));
    assert_eq!(enter_outcome(-62), Outcome::Done(0));
    assert_eq!(enter_outcome(-4), Outcome::Again);
    assert_eq!(enter_outcome(3), Outcome::Done(3));
}

#[test]
fn a_poll_is_ready_when_what_was_asked_for_came() {
    let pfd = |events, revents| PollFd { fd: 3, events, revents };
    assert_eq!(poll_outcome(1, pfd(POLLIN, POLLIN)), Waited::Ready(true));
    assert_eq!(poll_outcome(1, pfd(POLLOUT, POLLIN)), Waited::Ready(false));
    assert_eq!(poll_outcome(0, pfd(POLLIN, POLLIN)), Waited::Ready(false));
    assert_eq!(poll_outcome(-4, pfd(POLLIN, 0)), Waited::Again);
    assert_eq!(poll_outcome(-9, pfd(POLLIN, 0)), Waited::Failed(9));
}

#[test]
fn times_are_split_at_the_second() {
    assert_eq!(
        Timespec::timeout(2_500_000_001),
        Some(Timespec { sec: 2, nsec: 500_000_001 })
    );
    assert_eq!(Timespec::timeout(0), Some(Timespec { sec: 0, nsec: 0 }));
    assert_eq!(Timespec::timeout(u64::MAX), None);
    let longest = Timespec::timeout(u64::MAX - 1).unwrap();
    assert_eq!((longest.sec, longest.nsec), (18_446_744_073, 709_551_614));
}

#[test]
fn raw_mode_changes_four_things() {
    let previous = Termios {
        c_iflag: 1,
        c_oflag: 2,
        c_cflag: 3,
        c_lflag: 0xFFFF_FFFF,
        c_line: 4,
        c_cc: [7; 19],
    };
    let raw = raw_mode(previous);
    assert_eq!(raw.c_lflag, !(ICANON | ECHO));
    assert_eq!((raw.c_cc[VMIN], raw.c_cc[VTIME]), (0, 0));
    let mut expected = previous;
    expected.c_lflag = raw.c_lflag;
    expected.c_cc[VMIN] = 0;
    expected.c_cc[VTIME] = 0;
    assert_eq!(raw, expected);
}

#[test]
fn request_numbers_are_the_ones_in_the_headers() {
    assert_eq!(ioc(2, b'U', 10, 56), 0x8038_550A);
    assert_eq!(usbfs::submiturb(), 0x8038_550A);
    assert_eq!(usbfs::reapurbndelay(), 0x4008_550D);
    assert_eq!(usbfs::discardurb(), 0x550B);
    assert_eq!(usbfs::claiminterface(), 0x8004_550F);
    assert_eq!(usbfs::releaseinterface(), 0x8004_5510);
    assert_eq!(usbfs::usbdevfs_ioctl(), 0xC010_5512);
}

#[test]
fn usbfs_delivers_reports_and_queues_the_rest_again() {
    let mut stats = usbfs::Stats::default();
    let mut waiting = usbfs::Waiting::new();
    let urb = |context, actual_length, status| {
        Some(usbfs::Finished { context, actual_length, status })
    };
    assert_eq!(
        waiting.after_reap(&mut stats, urb(usbfs::OUT_CONTEXT, 64, 0), 5),
        usbfs::Step::Reap
    );
    assert_eq!(
        waiting.after_reap(&mut stats, urb(3, 0, 0), 5),
        usbfs::Step::Requeue(3)
    );
    assert_eq!(
        waiting.after_reap(&mut stats, urb(4, 32, -71), 5),
        usbfs::Step::Requeue(4)
    );
    assert_eq!(
        waiting.after_reap(&mut stats, urb(5, 32, 0), 5),
        usbfs::Step::Deliver(5, 32)
    );
    assert_eq!(
        waiting.after_reap(&mut stats, urb(6, 1000, 0), 5),
        usbfs::Step::Deliver(6, FRAME_MAX)
    );
    assert_eq!(waiting.batch, 5);
    assert_eq!(stats.max_batch, 5);
    assert_eq!(waiting.after_reap(&mut stats, None, 0), usbfs::Step::Quiet);
    assert_eq!(stats.waits, 0);
    assert_eq!(waiting.after_reap(&mut stats, None, 1), usbfs::Step::Wait);
    assert_eq!(stats.waits, 1);
    assert_eq!(waiting.after_wait(true), usbfs::Step::Reap);
    assert_eq!(waiting.after_wait(false), usbfs::Step::Quiet);
}

#[test]
fn opening_claims_the_interface_and_queues_every_read() {
    for driver in [Ok(0), Err(61)] {
        let mut opening = usbfs::Opening::new();
        assert_eq!(opening, usbfs::Opening::Detach);
        let reattach = driver.is_ok();
        opening = opening.after(driver);
        assert_eq!(opening, usbfs::Opening::Claim { reattach });
        opening = opening.after(Ok(0));
        for next in 0..usbfs::DEPTH {
            assert_eq!(opening, usbfs::Opening::Queue { reattach, next });
            // A read that cannot be queued ends it, and the device is closed again.
            let failed = opening.after(Err(19));
            let error = Error::Io(Some(19));
            assert_eq!(failed, usbfs::Opening::Undo { reattach, error });
            assert_eq!(failed.closing(), (usbfs::Closing::Discard(0), reattach));
            assert_eq!(failed.after(Ok(0)), failed);
            opening = opening.after(Ok(0));
        }
        assert_eq!(opening, usbfs::Opening::Open { reattach });
        assert_eq!(opening.after(Err(19)), opening);
        assert_eq!(opening.closing(), (usbfs::Closing::Discard(0), reattach));
    }
    // Somebody else has the interface.
    let refused = usbfs::Opening::new().after(Ok(0)).after(Err(16));
    assert_eq!(refused, usbfs::Opening::Refused(Error::Io(Some(16))));
    assert_eq!(refused.after(Ok(0)), refused);
    assert_eq!(refused.closing(), (usbfs::Closing::Done, false));
}

#[test]
fn closing_takes_everything_back() {
    for reattach in [true, false] {
        let mut steps = Vec::new();
        let mut closing = usbfs::Closing::new();
        while closing != usbfs::Closing::Done {
            steps.push(closing);
            closing = closing.next(reattach);
        }
        let discards: Vec<usbfs::Closing> =
            (0..usbfs::DEPTH).map(usbfs::Closing::Discard).collect();
        assert_eq!(steps[..usbfs::DEPTH], discards[..]);
        let rest = if reattach {
            vec![
                usbfs::Closing::Release,
                usbfs::Closing::Reattach,
                usbfs::Closing::Close,
            ]
        } else {
            vec![usbfs::Closing::Release, usbfs::Closing::Close]
        };
        assert_eq!(steps[usbfs::DEPTH..], rest[..]);
    }
}

#[test]
fn only_eagain_means_that_nothing_has_finished() {
    assert_eq!(usbfs::reap_outcome(Ok(0)), Ok(true));
    assert_eq!(usbfs::reap_outcome(Err(11)), Ok(false));
    assert_eq!(usbfs::reap_outcome(Err(19)), Err(Error::Io(Some(19))));
}

#[test]
fn nodes_are_found_by_their_attributes() {
    assert_eq!(usbfs::node_path(1, 42), b"/dev/bus/usb/001/042");
    assert_eq!(usbfs::node_path(12, 1234), b"/dev/bus/usb/012/1234");
    let attributes = usbfs::Attributes {
        vendor: b"35ca\n",
        product: b"1301\n",
        bus: b"3\n",
        device: b"7\n",
    };
    assert_eq!(
        usbfs::node_of(&attributes, 0x35CA, 0x1301),
        Some(b"/dev/bus/usb/003/007".to_vec())
    );
    assert_eq!(usbfs::node_of(&attributes, 0x35CA, 0x1302), None);
    assert_eq!(usbfs::node_of(&attributes, 0x35CB, 0x1301), None);
    let broken = usbfs::Attributes {
        bus: b"three\n",
        ..attributes
    };
    assert_eq!(usbfs::node_of(&broken, 0x35CA, 0x1301), None);
}

#[test]
fn a_ring_is_mapped_as_the_kernel_lays_it_out() {
    let params = uring::RingParams {
        sq_entries: 32,
        cq_entries: 64,
        features: 0x101,
        sq_array: 0x40,
        cq_cqes: 0x140,
    };
    let layout = uring::ring_layout(params);
    assert_eq!((layout.sq_len, layout.cq_len, layout.sqe_len), (0x540, 0x540, 2048));
    assert!(layout.single && layout.ext_arg);
    let apart = uring::ring_layout(uring::RingParams { features: 0, ..params });
    assert_eq!((apart.sq_len, apart.cq_len), (0xC0, 0x540));
    assert!(!apart.single && !apart.ext_arg);
    let shared = uring::mappings(layout);
    assert_eq!((shared.submission.len, shared.submission.offset), (0x540, 0));
    assert_eq!(shared.completion, None);
    assert_eq!((shared.entries.len, shared.entries.offset), (2048, 0x1000_0000));
    let own = uring::mappings(apart).completion.unwrap();
    assert_eq!((own.len, own.offset), (0x540, 0x800_0000));
    // Even the largest numbers fit.
    let most = uring::ring_layout(uring::RingParams {
        sq_entries: u32::MAX,
        cq_entries: u32::MAX,
        features: 1,
        sq_array: u32::MAX,
        cq_cqes: u32::MAX,
    });
    assert_eq!(most.sq_len, 17 * u32::MAX as u64);
}

#[test]
fn a_read_is_armed_byte_by_byte() {
    let sqe = uring::read_sqe(-2, 0x1122_3344_5566_7788, 5);
    assert_eq!(sqe.len(), uring::SQE_SIZE);
    assert_eq!(sqe[..8], [22, 0, 0, 0, 0xFE, 0xFF, 0xFF, 0xFF]);
    assert_eq!(sqe[8..16], [0xFF; 8]);
    assert_eq!(sqe[16..24], 0x1122_3344_5566_7788u64.to_le_bytes());
    assert_eq!(sqe[24..28], 64u32.to_le_bytes());
    assert_eq!(sqe[28..32], [0; 4]);
    assert_eq!(sqe[32..40], 5u64.to_le_bytes());
    assert_eq!(sqe[40..], [0; 24]);
}

#[test]
fn completions_are_read_and_judged() {
    let mut cqe = [0u8; uring::CQE_SIZE];
    cqe[..8].copy_from_slice(&0x1_0000_0007u64.to_le_bytes());
    cqe[8..12].copy_from_slice(&(-11i32).to_le_bytes());
    assert_eq!(uring::completion(&cqe), (0x1_0000_0007, -11));
    assert_eq!(uring::slot(33, 31), 1);
    assert_eq!(uring::slot(u32::MAX, 15), 15);

    let mut stats = uring::Stats::default();
    let mut waiting = uring::Waiting::new();
    assert_eq!(
        waiting.after_reap(&mut stats, Some((2, -11)), 9, 0),
        uring::Step::Rearm(2)
    );
    assert_eq!(
        waiting.after_reap(&mut stats, Some((3, 0)), 9, 0),
        uring::Step::Rearm(3)
    );
    assert_eq!(
        waiting.after_reap(&mut stats, Some((4, 32)), 9, 0),
        uring::Step::Deliver(4, 32)
    );
    assert_eq!(
        waiting.after_reap(&mut stats, Some((4, 900)), 9, 0),
        uring::Step::Deliver(4, 64)
    );
    assert_eq!((stats.completions, stats.batches, stats.max_batch), (4, 1, 4));
    assert_eq!(waiting.after_reap(&mut stats, None, 9, 0), uring::Step::Enter);
    assert_eq!(waiting.after_reap(&mut stats, None, 0, 2), uring::Step::Flush);
    assert_eq!(waiting.after_reap(&mut stats, None, 0, 0), uring::Step::Quiet);
    assert_eq!(waiting.after_enter(true), uring::Step::Quiet);
    assert_eq!(waiting.after_enter(false), uring::Step::Reap);
}

#[test]
fn the_kernel_is_entered_as_long_as_asked() {
    let quiet = uring::entering(0, true);
    assert_eq!((quiet.min_complete, quiet.flags, quiet.timeout), (0, 0, None));
    let timed = uring::entering(1_500_000_000, true);
    assert_eq!((timed.min_complete, timed.flags), (1, 9));
    assert_eq!(timed.timeout, Some(Timespec { sec: 1, nsec: 500_000_000 }));
    for (ns, ext) in [(u64::MAX, true), (5, false)] {
        let forever = uring::entering(ns, ext);
        assert_eq!((forever.min_complete, forever.flags, forever.timeout), (1, 1, None));
    }
}

#[test]
fn hidraw_numbers_its_reports_and_caps_what_comes() {
    assert_eq!(hidraw::numbered(&[1, 2]), vec![0, 1, 2]);
    assert_eq!(hidraw::numbered(&[]), vec![0]);
    assert_eq!(hidraw::read_outcome(Ok(64)), Ok(64));
    assert_eq!(hidraw::read_outcome(Ok(100)), Ok(64));
    assert_eq!(hidraw::read_outcome(Err(11)), Ok(0));
    assert_eq!(hidraw::read_outcome(Err(19)), Err(Error::Io(Some(19))));
    let mut h = hidraw::Hidraw::new(5);
    h.count();
    h.count();
    assert_eq!((h.raw_fd(), h.syscalls), (5, 2));
}

#[test]
fn a_uevent_names_its_device() {
    let uevent = b"DRIVER=hid-generic\nHID_ID=0003:000035CA:00001301\nHID_NAME=VITURE\n";
    assert!(hidraw::names_device(uevent, 0x35CA, 0x1301));
    assert!(!hidraw::names_device(uevent, 0x35CA, 0x1302));
    assert!(!hidraw::names_device(uevent, 0x1301, 0x35CA));
    // With carriage returns, and as the last line without an end.
    assert!(hidraw::names_device(b"HID_ID=0003:000035CA:00001301\r\nA=B", 0x35CA, 0x1301));
    assert!(hidraw::names_device(b"A=B\nHID_ID=0003:0000000A:0000FFFF", 0x000A, 0xFFFF));
    // Only that line counts, and only in upper case.
    assert!(!hidraw::names_device(b"X=000035CA:00001301\n", 0x35CA, 0x1301));
    assert!(!hidraw::names_device(b"HID_ID=0003:000035ca:00001301\n", 0x35CA, 0x1301));
    assert!(!hidraw::names_device(b"", 0, 0));
}
