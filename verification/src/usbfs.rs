//! The usbfs transport's numbers and decisions.
//!
//! `USBDEVFS_SUBMITURB` queues transfers, `USBDEVFS_REAPURBNDELAY` collects finished ones: a
//! submission queue and a completion queue, expressed as ioctls. [`DEPTH`] interrupt-IN URBs sit in
//! the kernel at all times; every completion carries its own buffer and is re-queued immediately.
use crate::frame::{Error, FRAME_MAX};
use crate::sys;
use crate::text;
use vstd::prelude::*;

verus! {

/// Read URBs queued at once.
pub const DEPTH: usize = 16;

/// Endpoint that reports come in on.
pub const EP_IN: u8 = 0x81;

/// Endpoint that frames go out on.
pub const EP_OUT: u8 = 0x01;

/// An interrupt transfer.
pub const URB_TYPE_INTERRUPT: u8 = 1;

/// The type of every usbfs `ioctl`: `U`.
pub const USBDEVFS_TYPE: u8 = 0x55;

/// Bytes of a `struct usbdevfs_urb` in its 64-bit layout.
pub const URB_SIZE: usize = 56;

/// Bytes of a `struct usbdevfs_ioctl` in its 64-bit layout.
pub const CARRIER_SIZE: usize = 16;

/// Bytes of a pointer.
pub const POINTER_SIZE: usize = 8;

/// Detaches the kernel driver from an interface.
pub const IOCTL_DISCONNECT: i32 = 0x5516;

/// Hands an interface back to the kernel driver.
pub const IOCTL_CONNECT: i32 = 0x5517;

/// The context that marks the URB of a frame going out.
pub const OUT_CONTEXT: usize = usize::MAX;

/// Queues a transfer.
pub fn submiturb() -> (number: usize)
    ensures
        number == 0x8038_550a,
{
    proof {
        sys::ioc_parts_add_up(sys::IOC_READ, USBDEVFS_TYPE, 10, URB_SIZE);
    }
    sys::ioc(sys::IOC_READ, USBDEVFS_TYPE, 10, URB_SIZE)
}

/// Collects a finished transfer without waiting.
pub fn reapurbndelay() -> (number: usize)
    ensures
        number == 0x4008_550d,
{
    proof {
        sys::ioc_parts_add_up(sys::IOC_WRITE, USBDEVFS_TYPE, 13, POINTER_SIZE);
    }
    sys::ioc(sys::IOC_WRITE, USBDEVFS_TYPE, 13, POINTER_SIZE)
}

/// Takes a queued transfer back.
pub fn discardurb() -> (number: usize)
    ensures
        number == 0x550b,
{
    proof {
        sys::ioc_parts_add_up(sys::IOC_NONE, USBDEVFS_TYPE, 11, 0);
    }
    sys::ioc(sys::IOC_NONE, USBDEVFS_TYPE, 11, 0)
}

/// Claims an interface.
pub fn claiminterface() -> (number: usize)
    ensures
        number == 0x8004_550f,
{
    proof {
        sys::ioc_parts_add_up(sys::IOC_READ, USBDEVFS_TYPE, 15, 4);
    }
    sys::ioc(sys::IOC_READ, USBDEVFS_TYPE, 15, 4)
}

/// Releases an interface.
pub fn releaseinterface() -> (number: usize)
    ensures
        number == 0x8004_5510,
{
    proof {
        sys::ioc_parts_add_up(sys::IOC_READ, USBDEVFS_TYPE, 16, 4);
    }
    sys::ioc(sys::IOC_READ, USBDEVFS_TYPE, 16, 4)
}

/// Carries [`IOCTL_DISCONNECT`] and [`IOCTL_CONNECT`] to an interface.
pub fn usbdevfs_ioctl() -> (number: usize)
    ensures
        number == 0xc010_5512,
{
    let both: usize = sys::IOC_READ | sys::IOC_WRITE;
    proof {
        assert(2usize | 1usize == 3usize) by (bit_vector);
        sys::ioc_parts_add_up(3, USBDEVFS_TYPE, 18, CARRIER_SIZE);
    }
    sys::ioc(both, USBDEVFS_TYPE, 18, CARRIER_SIZE)
}

/// Where the opening of a device stands: what is to be done next, or how it ended.
#[derive(Clone, Copy, Debug, PartialEq, Eq, Structural)]
pub enum Opening {
    /// Detach the kernel driver, otherwise the interface cannot be claimed.
    Detach,
    /// Claim the interface.
    Claim {
        /// Whether there was a kernel driver, which is handed the interface back in the end.
        reattach: bool,
    },
    /// Queue the read of this buffer.
    Queue { reattach: bool, next: usize },
    /// Nothing: the device is open.
    Open { reattach: bool },
    /// Nothing: the interface cannot be claimed, and the descriptor stays with whoever handed it over.
    Refused(Error),
    /// Close the device again, for a read cannot be queued; then it cannot be opened.
    Undo { reattach: bool, error: Error },
}

/// Where the opening stands after a step. That there was no driver to detach is no failure; any
/// other failure ends it, and one that comes after the claim leaves the device to be closed.
pub open spec fn opening_after(opening: Opening, outcome: Result<usize, i32>) -> Opening {
    match opening {
        Opening::Detach => Opening::Claim { reattach: outcome is Ok },
        Opening::Claim { reattach } => match outcome {
            Ok(_) => Opening::Queue { reattach, next: 0 },
            Err(code) => Opening::Refused(Error::Io(Some(code))),
        },
        Opening::Queue { reattach, next } => match outcome {
            Ok(_) => if next + 1 < DEPTH {
                Opening::Queue { reattach, next: (next + 1) as usize }
            } else {
                Opening::Open { reattach }
            },
            Err(code) => Opening::Undo { reattach, error: Error::Io(Some(code)) },
        },
        _ => opening,
    }
}

impl Opening {
    /// The first step.
    pub fn new() -> (o: Opening)
        ensures
            o == Opening::Detach,
    {
        Opening::Detach
    }

    /// Where the opening stands after a step came out.
    pub fn after(self, outcome: Result<usize, i32>) -> (o: Opening)
        ensures
            o == opening_after(self, outcome),
    {
        match self {
            Opening::Detach => Opening::Claim { reattach: outcome.is_ok() },
            Opening::Claim { reattach } => match outcome {
                Ok(_) => Opening::Queue { reattach, next: 0 },
                Err(code) => Opening::Refused(Error::Io(Some(code))),
            },
            Opening::Queue { reattach, next } => match outcome {
                Ok(_) => if next < DEPTH - 1 {
                    Opening::Queue { reattach, next: next + 1 }
                } else {
                    Opening::Open { reattach }
                },
                Err(code) => Opening::Undo { reattach, error: Error::Io(Some(code)) },
            },
            Opening::Open { .. } | Opening::Refused(_) | Opening::Undo { .. } => self,
        }
    }

    /// The first step of what is owed when the device is let go of at this point, and whether the
    /// interface goes back to a driver on the way: a device whose interface was claimed is closed,
    /// and any other is left as it is.
    pub fn closing(self) -> (owed: (Closing, bool))
        ensures
            owed == (match self {
                Opening::Queue { reattach, .. } | Opening::Open { reattach } | Opening::Undo {
                    reattach,
                    ..
                } => (Closing::Discard(0), reattach),
                _ => (Closing::Done, false),
            }),
    {
        match self {
            Opening::Queue { reattach, .. } | Opening::Open { reattach } | Opening::Undo {
                reattach,
                ..
            } => (Closing::new(), reattach),
            Opening::Detach | Opening::Claim { .. } | Opening::Refused(_) => (Closing::Done, false),
        }
    }
}

/// Where the opening stands after a run of steps.
pub open spec fn opening_over(outcomes: Seq<Result<usize, i32>>) -> Opening
    decreases outcomes.len(),
{
    if outcomes.len() == 0 {
        Opening::Detach
    } else {
        opening_after(opening_over(outcomes.drop_last()), outcomes.last())
    }
}

proof fn opening_so_far(outcomes: Seq<Result<usize, i32>>)
    ensures
        ({
            let n = outcomes.len();
            let went_well = forall|k: int|
                1 <= k < n && k < 2 + DEPTH ==> (#[trigger] outcomes[k]) is Ok;
            let reattach = outcomes[0] is Ok;
            match opening_over(outcomes) {
                Opening::Detach => n == 0,
                Opening::Claim { reattach: r } => n == 1 && r == reattach,
                Opening::Queue { reattach: r, next } => {
                    n == 2 + next && next < DEPTH && went_well && r == reattach
                },
                Opening::Open { reattach: r } => n >= 2 + DEPTH && went_well && r == reattach,
                Opening::Refused(e) => {
                    n >= 2 && outcomes[1] is Err && e == Error::Io(Some(outcomes[1]->Err_0))
                },
                Opening::Undo { reattach: r, error } => {
                    &&& n >= 3 && outcomes[1] is Ok && !went_well && r == reattach
                    &&& exists|k: int|
                        2 <= k < n && (#[trigger] outcomes[k]) == Err::<usize, i32>(error->Io_0->Some_0)
                    &&& error is Io && error->Io_0 is Some
                },
            }
        }),
    decreases outcomes.len(),
{
    if outcomes.len() > 0 {
        let shorter = outcomes.drop_last();
        opening_so_far(shorter);
        let n = outcomes.len();
        assert(forall|k: int| 0 <= k < n - 1 ==> shorter[k] == outcomes[k]);
        assert(outcomes.last() == outcomes[n - 1]);
        if let Opening::Undo { error, .. } = opening_over(shorter) {
            let k = choose|k: int|
                1 <= k < n - 1 && k < 2 + DEPTH && !((#[trigger] shorter[k]) is Ok);
            assert(!(outcomes[k] is Ok));
            let k = choose|k: int|
                2 <= k < n - 1 && (#[trigger] shorter[k]) == Err::<usize, i32>(error->Io_0->Some_0);
            assert(outcomes[k] == Err::<usize, i32>(error->Io_0->Some_0));
        }
    }
}

/// A device is open exactly where the interface was claimed and the read of every buffer was queued,
/// each once and in order; and the interface is handed back exactly where it was taken from a driver.
pub proof fn an_open_device_has_every_read_queued(outcomes: Seq<Result<usize, i32>>)
    ensures
        opening_over(outcomes) is Open <==> outcomes.len() >= 2 + DEPTH && forall|k: int|
            1 <= k < 2 + DEPTH ==> (#[trigger] outcomes[k]) is Ok,
        opening_over(outcomes) matches Opening::Open { reattach } ==> reattach == (outcomes[0] is Ok),
        opening_over(outcomes) matches Opening::Queue { next, .. } ==> next == outcomes.len() - 2,
{
    opening_so_far(outcomes);
    let n = outcomes.len();
    if n >= 2 + DEPTH && forall|k: int| 1 <= k < 2 + DEPTH ==> (#[trigger] outcomes[k]) is Ok {
        assert(forall|k: int| 1 <= k < n && k < 2 + DEPTH ==> (#[trigger] outcomes[k]) is Ok);
    }
}

/// A device that is not open has been refused before its interface was claimed, or is to be closed
/// again because a read could not be queued, with the interface going back to the driver it was taken
/// from.
pub proof fn a_failed_opening_is_undone(outcomes: Seq<Result<usize, i32>>)
    requires
        outcomes.len() >= 2 + DEPTH,
    ensures
        opening_over(outcomes) is Refused <==> outcomes[1] is Err,
        opening_over(outcomes) is Undo <==> outcomes[1] is Ok && exists|k: int|
            2 <= k < 2 + DEPTH && (#[trigger] outcomes[k]) is Err,
        opening_over(outcomes) matches Opening::Undo { reattach, .. } ==> reattach == (outcomes[0]
            is Ok),
{
    opening_so_far(outcomes);
    if opening_over(outcomes) is Undo {
        let k = choose|k: int|
            1 <= k < outcomes.len() && k < 2 + DEPTH && !((#[trigger] outcomes[k]) is Ok);
        assert(outcomes[k] is Err && k != 1);
    }
}

/// What is to be done next while a device is closed. Failures are ignored: there is nobody left to
/// act on them.
#[derive(Clone, Copy, Debug, PartialEq, Eq, Structural)]
pub enum Closing {
    /// Take the read of this buffer back.
    Discard(usize),
    /// Release the interface.
    Release,
    /// Hand the interface back to the kernel driver.
    Reattach,
    /// Close the descriptor.
    Close,
    /// Nothing: the device is closed.
    Done,
}

/// The step after a step of closing a device.
pub open spec fn closing_after(closing: Closing, reattach: bool) -> Closing {
    match closing {
        Closing::Discard(i) => if i + 1 < DEPTH {
            Closing::Discard((i + 1) as usize)
        } else {
            Closing::Release
        },
        Closing::Release => if reattach {
            Closing::Reattach
        } else {
            Closing::Close
        },
        Closing::Reattach => Closing::Close,
        _ => Closing::Done,
    }
}

/// Step `k` of closing a device.
pub open spec fn closing_step(k: nat, reattach: bool) -> Closing
    decreases k,
{
    if k == 0 {
        Closing::Discard(0)
    } else {
        closing_after(closing_step((k - 1) as nat, reattach), reattach)
    }
}

proof fn discards_come_first(k: nat, reattach: bool)
    requires
        k < DEPTH,
    ensures
        closing_step(k, reattach) == Closing::Discard(k as usize),
    decreases k,
{
    if k > 0 {
        discards_come_first((k - 1) as nat, reattach);
    }
}

/// Closing takes back the read of every buffer, then the claim, hands the interface back where it was
/// taken from a driver, and closes the descriptor last.
pub proof fn closing_takes_everything_back(i: nat, reattach: bool)
    requires
        i < DEPTH,
    ensures
        closing_step(i, reattach) == Closing::Discard(i as usize),
        closing_step(DEPTH as nat, reattach) == Closing::Release,
        reattach ==> {
            &&& closing_step((DEPTH + 1) as nat, reattach) == Closing::Reattach
            &&& closing_step((DEPTH + 2) as nat, reattach) == Closing::Close
            &&& closing_step((DEPTH + 3) as nat, reattach) == Closing::Done
        },
        !reattach ==> {
            &&& closing_step((DEPTH + 1) as nat, reattach) == Closing::Close
            &&& closing_step((DEPTH + 2) as nat, reattach) == Closing::Done
        },
{
    discards_come_first(i, reattach);
    discards_come_first((DEPTH - 1) as nat, reattach);
    reveal_with_fuel(closing_step, 5);
}

impl Closing {
    /// The first step.
    pub fn new() -> (c: Closing)
        ensures
            c == Closing::Discard(0),
    {
        Closing::Discard(0)
    }

    /// The step after this one.
    pub fn next(self, reattach: bool) -> (c: Closing)
        ensures
            c == closing_after(self, reattach),
    {
        match self {
            Closing::Discard(i) => if i < DEPTH - 1 {
                Closing::Discard(i + 1)
            } else {
                Closing::Release
            },
            Closing::Release => if reattach {
                Closing::Reattach
            } else {
                Closing::Close
            },
            Closing::Reattach => Closing::Close,
            _ => Closing::Done,
        }
    }
}

/// What has gone through the kernel.
#[derive(Clone, Copy, Debug, PartialEq, Eq, Structural)]
pub struct Stats {
    pub submits: u64,
    pub reaps: u64,
    pub waits: u64,
    pub max_batch: u32,
}

impl Default for Stats {
    fn default() -> (s: Stats)
        ensures
            s == (Stats { submits: 0, reaps: 0, waits: 0, max_batch: 0 }),
    {
        Stats { submits: 0, reaps: 0, waits: 0, max_batch: 0 }
    }
}

/// What to do next while a report is waited for.
#[derive(Clone, Copy, Debug, PartialEq, Eq, Structural)]
pub enum Step {
    /// Collect the next finished transfer.
    Reap,
    /// Queue the read of this buffer again, and go on.
    Requeue(usize),
    /// Hand out this many bytes of this buffer, and queue its read again.
    Deliver(usize, usize),
    /// Wait until a transfer has finished.
    Wait,
    /// Give up: nothing came.
    Quiet,
}

/// A finished transfer: its context, how many bytes it moved, and its status.
#[derive(Clone, Copy, Debug, PartialEq, Eq, Structural)]
pub struct Finished {
    pub context: usize,
    pub actual_length: i32,
    pub status: i32,
}

/// What a look for finished transfers leads to. A frame that has gone out delivers nothing. A read
/// that went well and moved something is a report, cut off at the size of one; any other is queued
/// again. Without a finished transfer there is nothing for it but to wait, if waiting is allowed.
pub open spec fn step_after_reap(found: Option<Finished>, timeout_ns: u64) -> Step {
    match found {
        Some(urb) => if urb.context == usize::MAX {
            Step::Reap
        } else if urb.status == 0 && urb.actual_length > 0 {
            Step::Deliver(
                urb.context,
                if urb.actual_length < FRAME_MAX {
                    urb.actual_length as usize
                } else {
                    FRAME_MAX
                },
            )
        } else {
            Step::Requeue(urb.context)
        },
        None => if timeout_ns == 0 {
            Step::Quiet
        } else {
            Step::Wait
        },
    }
}

/// A count that stops at the top.
pub open spec fn one_more(n: u64) -> u64 {
    if n == u64::MAX {
        n
    } else {
        (n + 1) as u64
    }
}

/// The wait for one report: how many transfers it has collected so far.
#[derive(Clone, Copy, Debug, PartialEq, Eq, Structural)]
pub struct Waiting {
    pub batch: u32,
}

impl Waiting {
    /// A wait that has collected nothing yet.
    pub fn new() -> (w: Waiting)
        ensures
            w.batch == 0,
    {
        Waiting { batch: 0 }
    }

    /// Takes note of a look for finished transfers, and says what to do next.
    pub fn after_reap(&mut self, stats: &mut Stats, found: Option<Finished>, timeout_ns: u64) -> (step:
        Step)
        ensures
            step == step_after_reap(found, timeout_ns),
            found is Some ==> {
                let batch = if old(self).batch == u32::MAX {
                    u32::MAX
                } else {
                    (old(self).batch + 1) as u32
                };
                &&& final(self).batch == batch
                &&& *final(stats) == (Stats {
                    max_batch: if batch > old(stats).max_batch {
                        batch
                    } else {
                        old(stats).max_batch
                    },
                    ..*old(stats)
                })
            },
            found is None ==> final(self).batch == old(self).batch && *final(stats) == (Stats {
                waits: if timeout_ns == 0 {
                    old(stats).waits
                } else {
                    one_more(old(stats).waits)
                },
                ..*old(stats)
            }),
    {
        match found {
            Some(urb) => {
                self.batch = self.batch.saturating_add(1);
                if self.batch > stats.max_batch {
                    stats.max_batch = self.batch;
                }
                if urb.context == OUT_CONTEXT {
                    return Step::Reap;
                }
                if urb.status == 0 && urb.actual_length > 0 {
                    let len: usize = urb.actual_length as usize;
                    let n: usize = if len < FRAME_MAX {
                        len
                    } else {
                        FRAME_MAX
                    };
                    return Step::Deliver(urb.context, n);
                }
                Step::Requeue(urb.context)
            },
            None => {
                if timeout_ns == 0 {
                    return Step::Quiet;
                }
                stats.waits = stats.waits.saturating_add(1);
                Step::Wait
            },
        }
    }

    /// What a wait leads to: another look where a transfer has finished.
    pub fn after_wait(&self, ready: bool) -> (step: Step)
        ensures
            step == (if ready {
                Step::Reap
            } else {
                Step::Quiet
            }),
    {
        if ready {
            Step::Reap
        } else {
            Step::Quiet
        }
    }
}

/// What collecting a finished transfer without waiting came to: whether there was one. Only EAGAIN
/// means that there was none; any other error is one.
pub fn reap_outcome(outcome: Result<usize, i32>) -> (r: Result<bool, Error>)
    ensures
        r == (match outcome {
            Ok(_) => Ok::<bool, Error>(true),
            Err(code) => if code == sys::EAGAIN {
                Ok(false)
            } else {
                Err(Error::Io(Some(code)))
            },
        }),
{
    match outcome {
        Ok(_) => Ok(true),
        Err(code) => if code == sys::EAGAIN {
            Ok(false)
        } else {
            Err(Error::Io(Some(code)))
        },
    }
}

/// A report is never longer than a report can be, and what is handed out was read without an error.
pub proof fn delivered_reports_fit(found: Option<Finished>, timeout_ns: u64)
    ensures
        step_after_reap(found, timeout_ns) matches Step::Deliver(idx, n) ==> {
            &&& 0 < n <= FRAME_MAX
            &&& found is Some
            &&& idx == found->Some_0.context
            &&& found->Some_0.status == 0
            &&& n <= found->Some_0.actual_length
        },
{
}

/// A number in at least three decimal digits.
pub open spec fn three_digits(n: nat) -> Seq<u8> {
    if n < 10 {
        seq![0x30u8, 0x30u8] + text::decimal(n)
    } else if n < 100 {
        seq![0x30u8] + text::decimal(n)
    } else {
        text::decimal(n)
    }
}

/// The path of a device's node: `/dev/bus/usb/BBB/DDD`.
pub open spec fn node_bytes(bus: nat, dev: nat) -> Seq<u8> {
    text::ascii("/dev/bus/usb/") + three_digits(bus) + seq![0x2fu8] + three_digits(dev)
}

fn push_three_digits(out: &mut Vec<u8>, n: u32)
    ensures
        final(out)@ == old(out)@ + three_digits(n as nat),
{
    if n < 100 {
        out.push(0x30);
    }
    if n < 10 {
        out.push(0x30);
    }
    text::push_decimal(out, n as usize);
    assert(out@ =~= old(out)@ + three_digits(n as nat));
}

/// The path of a device's node, from the numbers of its bus and of the device on it.
pub fn node_path(bus: u32, dev: u32) -> (path: Vec<u8>)
    ensures
        path@ == node_bytes(bus as nat, dev as nat),
{
    proof {
        reveal_strlit("/dev/bus/usb/");
    }
    let mut path: Vec<u8> = Vec::new();
    crate::wire::push_all(&mut path, text::ascii_bytes("/dev/bus/usb/"));
    push_three_digits(&mut path, bus);
    path.push(0x2f);
    push_three_digits(&mut path, dev);
    assert(path@ =~= node_bytes(bus as nat, dev as nat));
    path
}

/// The text of the four sysfs files that tell a device on the bus apart and where its node is.
pub struct Attributes<'a> {
    pub vendor: &'a [u8],
    pub product: &'a [u8],
    pub bus: &'a [u8],
    pub device: &'a [u8],
}

/// The node of a device, where its sysfs files say that it is the one looked for: the vendor and the
/// product are hexadecimal, and the numbers of the bus and the device decimal.
pub fn node_of(attributes: &Attributes, vid: u16, pid: u16) -> (r: Option<Vec<u8>>)
    ensures
        ({
            let bus = text::number_in(attributes.bus@, 10, u32::MAX as int);
            let dev = text::number_in(attributes.device@, 10, u32::MAX as int);
            let found = text::number_in(attributes.vendor@, 16, 0xffff) == Some(vid as int)
                && text::number_in(attributes.product@, 16, 0xffff) == Some(pid as int)
                && bus is Some && dev is Some;
            match r {
                Some(path) => found && path@ == node_bytes(bus->Some_0 as nat, dev->Some_0 as nat),
                None => !found,
            }
        }),
{
    let vendor = text::number(attributes.vendor, 16, 0xffff);
    let product = text::number(attributes.product, 16, 0xffff);
    match (vendor, product) {
        (Some(v), Some(p)) => {
            if v != vid as u32 || p != pid as u32 {
                return None;
            }
        },
        _ => {
            return None;
        },
    }
    let bus = text::number(attributes.bus, 10, u32::MAX);
    let dev = text::number(attributes.device, 10, u32::MAX);
    match (bus, dev) {
        (Some(bus), Some(dev)) => Some(node_path(bus, dev)),
        _ => None,
    }
}

/// Every finished read is handed out or queued again under its own buffer, and none is forgotten; a
/// frame that has gone out is neither.
pub proof fn no_buffer_is_lost(urb: Finished, timeout_ns: u64)
    ensures
        ({
            let step = step_after_reap(Some(urb), timeout_ns);
            &&& urb.context == usize::MAX ==> step == Step::Reap
            &&& urb.context != usize::MAX && urb.status == 0 && urb.actual_length >= 1 ==> {
                &&& step matches Step::Deliver(idx, n) && idx == urb.context && (n
                    == urb.actual_length || n == 64 && urb.actual_length > 64)
            }
            &&& urb.context != usize::MAX && (urb.status != 0 || urb.actual_length <= 0) ==> step
                == Step::Requeue(urb.context)
        }),
{
}

proof fn three_digits_are_a_number(n: nat, limit: int)
    requires
        n <= limit,
    ensures
        text::number_in(three_digits(n), 10, limit) == Some(n as int),
        three_digits(n).len() >= 3,
        n < 1000 ==> three_digits(n).len() == 3,
{
    let k: nat = if n < 10 {
        2
    } else if n < 100 {
        1
    } else {
        0
    };
    text::decimals_are_numerals(n, false);
    text::a_written_number_is_read(n, 10, false, Seq::empty(), false, k, Seq::empty(), limit);
    reveal_with_fuel(text::decimal, 4);
    assert(Seq::<u8>::empty() + (text::sign(false) + text::zeros(k) + text::numeral(n, 10, false))
        + Seq::<u8>::empty() =~= three_digits(n));
}

/// The node of a device stands under the number of its bus and is called by its own number there,
/// each with zeros before it up to three digits.
pub proof fn a_node_stands_under_its_numbers(bus: nat, dev: nat, limit: int)
    requires
        bus <= limit,
        dev <= limit,
    ensures
        exists|b: Seq<u8>, d: Seq<u8>|
            {
                &&& node_bytes(bus, dev) == #[trigger] (text::ascii("/dev/bus/usb/") + b
                    + text::ascii("/") + d)
                &&& text::number_in(b, 10, limit) == Some(bus as int)
                &&& text::number_in(d, 10, limit) == Some(dev as int)
                &&& b.len() >= 3 && d.len() >= 3
                &&& bus < 1000 ==> b.len() == 3
                &&& dev < 1000 ==> d.len() == 3
            },
{
    reveal_strlit("/");
    three_digits_are_a_number(bus, limit);
    three_digits_are_a_number(dev, limit);
    assert(text::ascii("/") =~= seq![0x2fu8]);
    let b = three_digits(bus);
    let d = three_digits(dev);
    assert(node_bytes(bus, dev) == text::ascii("/dev/bus/usb/") + b + text::ascii("/") + d);
}

} // verus!
