//! What the driver's few syscalls are handed, and what their return values mean.
use vstd::prelude::*;

verus! {

/// A file descriptor to wait on, with the events asked for and the ones that came.
#[derive(Clone, Copy, Debug, PartialEq, Eq, Structural)]
pub struct PollFd {
    pub fd: i32,
    pub events: i16,
    pub revents: i16,
}

/// A span of time, in seconds and nanoseconds.
#[derive(Clone, Copy, Debug, PartialEq, Eq, Structural)]
pub struct Timespec {
    pub sec: i64,
    pub nsec: i64,
}

/// Something to read.
pub const POLLIN: i16 = 0x001;

/// usbfs reports completed URBs as "writable".
pub const POLLOUT: i16 = 0x004;

/// Nothing there right now.
pub const EAGAIN: i32 = 11;

impl Timespec {
    /// Splits a time in nanoseconds. `u64::MAX` waits forever, and is no span of time.
    pub fn timeout(ns: u64) -> (t: Option<Timespec>)
        ensures
            match t {
                Some(t) => {
                    &&& ns != u64::MAX
                    &&& 0 <= t.nsec < 1_000_000_000
                    &&& t.sec * 1_000_000_000 + t.nsec == ns
                },
                None => ns == u64::MAX,
            },
    {
        if ns == u64::MAX {
            return None;
        }
        Some(
            Timespec { sec: (ns / 1_000_000_000) as i64, nsec: (ns % 1_000_000_000) as i64 },
        )
    }
}

/// What a syscall came to.
#[derive(Clone, Copy, Debug, PartialEq, Eq, Structural)]
pub enum Outcome {
    /// It returned this value.
    Done(usize),
    /// It was interrupted and is to be made again.
    Again,
    /// It failed with this error number.
    Failed(i32),
}

/// What a return value means: a negative one is an error number, and an interrupted call (EINTR, 4)
/// is to be made again. Error numbers end at 4095.
pub open spec fn meaning(ret: int) -> Outcome {
    if ret == -4 {
        Outcome::Again
    } else if ret < 0 {
        Outcome::Failed((-ret) as i32)
    } else {
        Outcome::Done(ret as usize)
    }
}

/// Turns a syscall's return value into what it means. An interrupted call is an error like any
/// other here.
pub fn wrap(ret: isize) -> (r: Result<usize, i32>)
    requires
        ret >= -4095,
    ensures
        r == (if ret < 0 {
            Err::<usize, i32>((-ret) as i32)
        } else {
            Ok(ret as usize)
        }),
{
    if ret < 0 {
        Err((-ret) as i32)
    } else {
        Ok(ret as usize)
    }
}

/// What an `ioctl` came to.
pub fn call_outcome(ret: isize) -> (o: Outcome)
    requires
        ret >= -4095,
    ensures
        o == meaning(ret as int),
{
    if ret == -4 {
        return Outcome::Again;
    }
    match wrap(ret) {
        Ok(v) => Outcome::Done(v),
        Err(code) => Outcome::Failed(code),
    }
}

/// What an `io_uring_enter` came to: running out of time (ETIME, 62) is not an error, nothing
/// completed then.
pub fn enter_outcome(ret: isize) -> (o: Outcome)
    requires
        ret >= -4095,
    ensures
        o == (if ret == -62 {
            Outcome::Done(0)
        } else {
            meaning(ret as int)
        }),
{
    if ret == -62 {
        return Outcome::Done(0);
    }
    call_outcome(ret)
}

/// What a wait for events came to.
#[derive(Clone, Copy, Debug, PartialEq, Eq, Structural)]
pub enum Waited {
    /// Whether one of the events asked for came.
    Ready(bool),
    /// It was interrupted and is to be made again.
    Again,
    /// It failed with this error number.
    Failed(i32),
}

/// What a `ppoll` on one descriptor came to.
pub fn poll_outcome(ret: isize, pfd: PollFd) -> (w: Waited)
    requires
        ret >= -4095,
    ensures
        w == (match meaning(ret as int) {
            Outcome::Done(n) => Waited::Ready(n > 0 && pfd.revents & pfd.events != 0),
            Outcome::Again => Waited::Again,
            Outcome::Failed(code) => Waited::Failed(code),
        }),
{
    match call_outcome(ret) {
        Outcome::Done(n) => Waited::Ready(n > 0 && pfd.revents & pfd.events != 0),
        Outcome::Again => Waited::Again,
        Outcome::Failed(code) => Waited::Failed(code),
    }
}

/// Directions of an `ioctl`: no data, data to the kernel, data from it.
pub const IOC_NONE: usize = 0;

/// See [`IOC_NONE`].
pub const IOC_WRITE: usize = 1;

/// See [`IOC_NONE`].
pub const IOC_READ: usize = 2;

/// Builds an `_IOC` number the way `linux/ioctl.h` does.
pub fn ioc(dir: usize, typ: u8, nr: u8, size: usize) -> (number: usize)
    ensures
        number == (dir << 30usize) | (size << 16usize) | ((typ as usize) << 8usize) | (nr as usize),
{
    (dir << 30usize) | (size << 16usize) | ((typ as usize) << 8usize) | (nr as usize)
}

/// The parts of an `_IOC` number do not overlap: two bits of direction, fourteen of size, eight of
/// type and eight of number.
pub proof fn ioc_parts_add_up(dir: usize, typ: u8, nr: u8, size: usize)
    requires
        dir < 4,
        size < 0x4000,
    ensures
        (dir << 30usize) | (size << 16usize) | ((typ as usize) << 8usize) | (nr as usize)
            == 0x4000_0000 * dir + 0x1_0000 * size + 0x100 * typ + nr,
{
    assert((dir << 30usize) | (size << 16usize) | ((typ as usize) << 8usize) | (nr as usize)
        == 0x4000_0000 * dir + 0x1_0000 * size + 0x100 * typ + nr) by (bit_vector)
        requires
            dir < 4,
            size < 0x4000,
    ;
}

/// Terminal input line by line.
pub const ICANON: u32 = 0x2;

/// Terminal input shown as it is typed.
pub const ECHO: u32 = 0x8;

/// Where a terminal's settings hold how long a read waits.
pub const VTIME: usize = 5;

/// Where a terminal's settings hold how much a read waits for.
pub const VMIN: usize = 6;

/// A terminal's settings.
#[derive(Clone, Copy, Debug, PartialEq, Eq)]
pub struct Termios {
    pub c_iflag: u32,
    pub c_oflag: u32,
    pub c_cflag: u32,
    pub c_lflag: u32,
    pub c_line: u8,
    pub c_cc: [u8; 19],
}

/// A terminal's size.
#[derive(Clone, Copy, Debug, PartialEq, Eq, Structural)]
pub struct WinSize {
    pub rows: u16,
    pub cols: u16,
    pub xpixel: u16,
    pub ypixel: u16,
}

/// The settings of a terminal in raw-ish mode: no line buffering, no echo, reads return
/// immediately. Everything else stays as it is.
pub fn raw_mode(previous: Termios) -> (raw: Termios)
    ensures
        raw.c_iflag == previous.c_iflag,
        raw.c_oflag == previous.c_oflag,
        raw.c_cflag == previous.c_cflag,
        raw.c_lflag == previous.c_lflag & !(ICANON | ECHO),
        raw.c_line == previous.c_line,
        raw.c_cc@ == previous.c_cc@.update(VMIN as int, 0).update(VTIME as int, 0),
{
    let mut raw = previous;
    raw.c_lflag = raw.c_lflag & !(ICANON | ECHO);
    raw.c_cc[VMIN] = 0;
    raw.c_cc[VTIME] = 0;
    raw
}

/// Raw-ish mode has neither line buffering nor echo, and every other local flag is kept.
pub proof fn raw_mode_clears_two_flags(flags: u32, other: u32)
    requires
        other & (ICANON | ECHO) == 0,
    ensures
        (flags & !(ICANON | ECHO)) & (ICANON | ECHO) == 0,
        (flags & !(ICANON | ECHO)) & other == flags & other,
{
    assert((flags & !(0x2u32 | 0x8u32)) & (0x2u32 | 0x8u32) == 0) by (bit_vector);
    assert(other & (0x2u32 | 0x8u32) == 0 ==> (flags & !(0x2u32 | 0x8u32)) & other == flags & other)
        by (bit_vector);
}

/// A call that succeeded means the value it returned, an interrupted one is made again, and any other
/// failed with the error number whose negation it returned.
pub proof fn a_return_value_means_itself_or_its_negation(value: usize, code: i32)
    requires
        0 < code <= 4095,
    ensures
        meaning(value as int) == Outcome::Done(value),
        meaning(-(code as int)) == (if code == 4 {
            Outcome::Again
        } else {
            Outcome::Failed(code)
        }),
{
}

/// Raw-ish mode switches off the flags of two and of eight in the terminal's local settings, and
/// keeps every other.
pub proof fn raw_mode_clears_line_buffering_and_echo(flags: u32)
    ensures
        ({
            let raw = flags & !(ICANON | ECHO);
            &&& raw / 2 % 2 == 0
            &&& raw / 8 % 2 == 0
            &&& raw % 2 == flags % 2
            &&& raw / 4 % 2 == flags / 4 % 2
            &&& raw / 16 == flags / 16
        }),
{
    let raw = flags & !(0x2u32 | 0x8u32);
    assert(raw / 2 % 2 == 0 && raw / 8 % 2 == 0 && raw % 2 == flags % 2 && raw / 4 % 2 == flags / 4
        % 2 && raw / 16 == flags / 16) by (bit_vector)
        requires
            raw == flags & !(0x2u32 | 0x8u32),
    ;
}

} // verus!
