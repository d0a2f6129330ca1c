//! The hidraw transport's framing, and how its node is recognised.
use crate::frame::{Error, FRAME_MAX};
use crate::sys;
use crate::text;
use vstd::prelude::*;

verus! {

/// A hidraw descriptor, and how many syscalls have gone into it.
pub struct Hidraw {
    pub fd: i32,
    /// For comparing with the io_uring path.
    pub syscalls: u64,
}

impl Hidraw {
    /// Takes over a descriptor.
    pub fn new(fd: i32) -> (h: Hidraw)
        ensures
            h.fd == fd,
            h.syscalls == 0,
    {
        Hidraw { fd, syscalls: 0 }
    }

    /// The descriptor.
    pub fn raw_fd(&self) -> (fd: i32)
        ensures
            fd == self.fd,
    {
        self.fd
    }

    /// Counts a syscall; the count stops at the top.
    pub fn count(&mut self)
        ensures
            final(self).fd == old(self).fd,
            final(self).syscalls == (if old(self).syscalls == u64::MAX {
                u64::MAX
            } else {
                (old(self).syscalls + 1) as u64
            }),
    {
        self.syscalls = self.syscalls.saturating_add(1);
    }
}

/// A frame as hidraw takes it: behind the byte of the report ID. The device uses no numbered
/// reports, so that is zero.
pub fn numbered(frame: &[u8]) -> (report: Vec<u8>)
    ensures
        report@ == seq![0u8] + frame@,
{
    let mut report: Vec<u8> = Vec::new();
    report.push(0);
    crate::wire::push_all(&mut report, frame);
    assert(report@ =~= seq![0u8] + frame@);
    report
}

/// What a read came to: nothing there right now is a report of no bytes, and no other error is. More
/// bytes than a report has do not come.
pub fn read_outcome(outcome: Result<usize, i32>) -> (r: Result<usize, Error>)
    ensures
        r == (match outcome {
            Ok(n) => Ok::<usize, Error>(if n < FRAME_MAX {
                n
            } else {
                FRAME_MAX
            }),
            Err(code) => if code == sys::EAGAIN {
                Ok(0)
            } else {
                Err(Error::Io(Some(code)))
            },
        }),
{
    match outcome {
        Ok(n) => Ok(
            if n < FRAME_MAX {
                n
            } else {
                FRAME_MAX
            },
        ),
        Err(code) => if code == sys::EAGAIN {
            Ok(0)
        } else {
            Err(Error::Io(Some(code)))
        },
    }
}

/// A hexadecimal digit in upper case.
pub open spec fn hex_digit(v: int) -> u8 {
    if v < 10 {
        (0x30 + v) as u8
    } else {
        (0x41 + v - 10) as u8
    }
}

/// A 16-bit number in eight hexadecimal digits.
pub open spec fn eight_hex(v: u16) -> Seq<u8> {
    seq![
        0x30,
        0x30,
        0x30,
        0x30,
        hex_digit(v as int / 0x1000),
        hex_digit(v as int / 0x100 % 0x10),
        hex_digit(v as int / 0x10 % 0x10),
        hex_digit(v as int % 0x10),
    ]
}

/// How a `uevent` file names a device: the vendor and the product in eight hexadecimal digits each.
pub open spec fn hid_id(vid: u16, pid: u16) -> Seq<u8> {
    eight_hex(vid) + seq![0x3au8] + eight_hex(pid)
}

fn push_hex_digit(out: &mut Vec<u8>, v: u16)
    requires
        v < 16,
    ensures
        final(out)@ == old(out)@.push(hex_digit(v as int)),
{
    if v < 10 {
        out.push(0x30 + v as u8);
    } else {
        out.push(0x41 + (v - 10) as u8);
    }
}

fn push_eight_hex(out: &mut Vec<u8>, v: u16)
    ensures
        final(out)@ == old(out)@ + eight_hex(v),
{
    out.push(0x30);
    out.push(0x30);
    out.push(0x30);
    out.push(0x30);
    push_hex_digit(out, v / 0x1000);
    push_hex_digit(out, v / 0x100 % 0x10);
    push_hex_digit(out, v / 0x10 % 0x10);
    push_hex_digit(out, v % 0x10);
    assert(out@ =~= old(out)@ + eight_hex(v));
}

/// Where the line that starts at `at` ends: before the next line feed, or with the text.
pub open spec fn line_end(s: Seq<u8>, at: int) -> int
    decreases s.len() - at,
{
    if at >= s.len() || s[at] == 0x0a {
        at
    } else {
        line_end(s, at + 1)
    }
}

/// The line that starts at `at`, without the carriage return before its line feed.
pub open spec fn line_at(s: Seq<u8>, at: int) -> Seq<u8> {
    let end = line_end(s, at);
    let line = s.subrange(at, end);
    if end < s.len() && line.len() > 0 && line.last() == 0x0d {
        line.drop_last()
    } else {
        line
    }
}

/// Whether a line names a device: it is the `HID_ID` line, and ends with the device's numbers.
pub open spec fn line_names(line: Seq<u8>, vid: u16, pid: u16) -> bool {
    text::occurs_at(line, text::ascii("HID_ID="), 0) && text::occurs_at(
        line,
        hid_id(vid, pid),
        line.len() - hid_id(vid, pid).len(),
    )
}

/// Whether a line starts at `at`.
pub open spec fn starts_line(s: Seq<u8>, at: int) -> bool {
    0 <= at < s.len() && (at == 0 || s[at - 1] == 0x0a)
}

/// Whether one of the lines of a `uevent` file names a device.
pub open spec fn names(uevent: Seq<u8>, vid: u16, pid: u16) -> bool {
    exists|at: int|
        #[trigger] starts_line(uevent, at) && line_names(line_at(uevent, at), vid, pid)
}

proof fn line_end_is_ahead(s: Seq<u8>, at: int)
    requires
        0 <= at <= s.len(),
    ensures
        at <= line_end(s, at) <= s.len(),
        forall|k: int| at <= k < line_end(s, at) ==> s[k] != 0x0a,
        line_end(s, at) < s.len() ==> s[line_end(s, at)] == 0x0a,
    decreases s.len() - at,
{
    if at < s.len() && s[at] != 0x0a {
        line_end_is_ahead(s, at + 1);
    }
}

/// Whether a `uevent` file names a device.
pub fn names_device(uevent: &[u8], vid: u16, pid: u16) -> (b: bool)
    ensures
        b == names(uevent@, vid, pid),
{
    proof {
        reveal_strlit("HID_ID=");
    }
    let prefix = text::ascii_bytes("HID_ID=");
    let mut needle: Vec<u8> = Vec::new();
    push_eight_hex(&mut needle, vid);
    needle.push(0x3a);
    push_eight_hex(&mut needle, pid);
    assert(needle@ =~= hid_id(vid, pid));
    let mut at: usize = 0;
    while at < uevent.len()
        invariant
            at <= uevent@.len(),
            prefix@ == text::ascii("HID_ID="),
            needle@ == hid_id(vid, pid),
            at < uevent@.len() ==> starts_line(uevent@, at as int),
            forall|k: int|
                k < at && #[trigger] starts_line(uevent@, k) ==> !line_names(
                    line_at(uevent@, k),
                    vid,
                    pid,
                ),
        decreases uevent@.len() - at,
    {
        proof {
            line_end_is_ahead(uevent@, at as int);
        }
        let ghost stop = line_end(uevent@, at as int);
        let mut end: usize = at;
        while end < uevent.len() && uevent[end] != 0x0a
            invariant
                at <= end <= stop <= uevent@.len(),
                forall|k: int| at <= k < stop ==> uevent@[k] != 0x0a,
                stop < uevent@.len() ==> uevent@[stop] == 0x0a,
            ensures
                end == stop,
            decreases uevent@.len() - end,
        {
            end += 1;
        }
        let mut cut: usize = end;
        if end < uevent.len() && end > at && uevent[end - 1] == 0x0d {
            cut = end - 1;
        }
        let line = vstd::slice::slice_subrange(uevent, at, cut);
        assert(line@ =~= line_at(uevent@, at as int));
        if text::starts_with(line, prefix) && text::ends_with(line, needle.as_slice()) {
            assert(starts_line(uevent@, at as int));
            return true;
        }
        if end == uevent.len() {
            return false;
        }
        at = end + 1;
    }
    false
}

/// The eight digits of a number read back as it, and hold no small letter.
pub proof fn eight_digits_read_back(v: u16)
    ensures
        text::number_in(eight_hex(v), 16, 0xffff) == Some(v as int),
        eight_hex(v).len() == 8,
        forall|i: int|
            0 <= i < 8 ==> 0x30 <= #[trigger] eight_hex(v)[i] <= 0x39 || 0x41 <= eight_hex(v)[i]
                <= 0x46,
{
    let k: nat = if v < 0x10 {
        7
    } else if v < 0x100 {
        6
    } else if v < 0x1000 {
        5
    } else {
        4
    };
    text::a_written_number_is_read(
        v as nat,
        16,
        true,
        Seq::empty(),
        false,
        k,
        Seq::empty(),
        0xffff,
    );
    reveal_with_fuel(text::numeral, 4);
    assert(Seq::<u8>::empty() + (text::sign(false) + text::zeros(k) + text::numeral(
        v as nat,
        16,
        true,
    )) + Seq::<u8>::empty() =~= eight_hex(v));
}

/// A line names one device at most.
pub proof fn a_line_names_one_device(line: Seq<u8>, vid: u16, pid: u16, vid2: u16, pid2: u16)
    requires
        line_names(line, vid, pid),
        line_names(line, vid2, pid2),
    ensures
        vid == vid2,
        pid == pid2,
{
    let a = hid_id(vid, pid);
    let b = hid_id(vid2, pid2);
    assert(a == b);
    assert(a.take(8) =~= eight_hex(vid));
    assert(b.take(8) =~= eight_hex(vid2));
    assert(a.skip(9) =~= eight_hex(pid));
    assert(b.skip(9) =~= eight_hex(pid2));
    eight_digits_read_back(vid);
    eight_digits_read_back(vid2);
    eight_digits_read_back(pid);
    eight_digits_read_back(pid2);
}

/// A file that lists a device on a line of its own names it: behind `HID_ID=` and whatever says which
/// bus it is on, the vendor, a colon and the product. The line may end with a line feed, with a
/// carriage return before it, or with the file, and other lines may stand around it.
pub proof fn a_listed_device_is_named(
    before: Seq<u8>,
    bus: Seq<u8>,
    vid: u16,
    pid: u16,
    after: Seq<u8>,
)
    requires
        before.len() == 0 || before.last() == 0x0a,
        !bus.contains(0x0a),
        after.len() == 0 || after[0] == 0x0a || (after.len() >= 2 && after[0] == 0x0d && after[1]
            == 0x0a),
    ensures
        names(
            before + (text::ascii("HID_ID=") + bus + eight_hex(vid) + text::ascii(":") + eight_hex(
                pid,
            )) + after,
            vid,
            pid,
        ),
{
    reveal_strlit("HID_ID=");
    reveal_strlit(":");
    eight_digits_read_back(vid);
    eight_digits_read_back(pid);
    let head = text::ascii("HID_ID=");
    let line = head + bus + eight_hex(vid) + text::ascii(":") + eight_hex(pid);
    let s = before + line + after;
    let at = before.len() as int;
    let end = at + line.len();
    assert forall|i: int| 0 <= i < line.len() implies #[trigger] line[i] != 0x0a && line[i]
        != 0x0d || 7 <= i < 7 + bus.len() by {
        let j = i - 7 - bus.len();
        if 0 <= j < 8 {
            assert(line[i] == eight_hex(vid)[j]);
        } else if 9 <= j {
            assert(line[i] == eight_hex(pid)[j - 9]);
        }
    }
    assert forall|i: int| at <= i < end implies #[trigger] s[i] != 0x0a by {
        assert(s[i] == line[i - at]);
        if 7 <= i - at < 7 + bus.len() {
            assert(line[i - at] == bus[i - at - 7]);
        }
    }
    line_end_is_ahead(s, at);
    let stop = line_end(s, at);
    assert(stop >= end) by {
        if stop < end {
            assert(s[stop] == 0x0a);
        }
    }
    if after.len() > 0 {
        assert(s[end] == after[0]);
        if after[0] != 0x0a {
            assert(s[end + 1] == after[1]);
        }
    }
    assert(line.last() == eight_hex(pid)[7]);
    let whole = s.subrange(at, stop);
    if stop == end {
        assert(whole =~= line);
    } else {
        assert(stop == end + 1);
        assert(whole.drop_last() =~= line);
    }
    assert(line_at(s, at) == line);
    let n = line.len() as int;
    assert(line.subrange(0, 7) =~= head);
    assert(line.subrange(n - 17, n) =~= hid_id(vid, pid));
    assert(starts_line(s, at));
}

/// Only a listed device is named: where a file names one, it holds a line that starts with `HID_ID=`
/// and ends with the device's numbers.
pub proof fn only_a_listed_device_is_named(uevent: Seq<u8>, vid: u16, pid: u16)
    requires
        names(uevent, vid, pid),
    ensures
        exists|at: int, to: int|
            {
                &&& 0 <= at <= to <= uevent.len()
                &&& at == 0 || uevent[at - 1] == 0x0a
                &&& to == uevent.len() || uevent[to] == 0x0a || (to + 1 < uevent.len() && uevent[to]
                    == 0x0d && uevent[to + 1] == 0x0a)
                &&& !(#[trigger] uevent.subrange(at, to)).contains(0x0a)
                &&& text::ascii("HID_ID=").is_prefix_of(uevent.subrange(at, to))
                &&& (eight_hex(vid) + text::ascii(":") + eight_hex(pid)).is_suffix_of(
                    uevent.subrange(at, to),
                )
            },
{
    reveal_strlit(":");
    let at = choose|at: int|
        #[trigger] starts_line(uevent, at) && line_names(line_at(uevent, at), vid, pid);
    line_end_is_ahead(uevent, at);
    let end = line_end(uevent, at);
    let line = line_at(uevent, at);
    let to = at + line.len();
    assert(line =~= uevent.subrange(at, to));
    assert(hid_id(vid, pid) =~= eight_hex(vid) + text::ascii(":") + eight_hex(pid));
    assert(uevent.subrange(at, to) == line);
}

} // verus!
