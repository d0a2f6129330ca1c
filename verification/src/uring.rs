//! The io_uring transport's layout and decisions: a ring of read buffers that are armed in advance.
//!
//! [`DEPTH`] reads sit in the kernel at all times. When a report comes, it lies in the buffer that
//! belongs to the completion; it is handed up, and the same buffer is armed again at once. Between
//! two reports nothing polls and nothing sleeps: the thread waits in the kernel.
use crate::frame::FRAME_MAX;
use crate::sys::Timespec;
use crate::wire;
use vstd::prelude::*;

verus! {

/// Reads that sit in the kernel at once.
pub const DEPTH: usize = 16;

/// Entries the ring is asked for: two for every read.
pub const RING_ENTRIES: u32 = 32;

/// A read.
pub const IORING_OP_READ: u8 = 22;

/// Wait for completions.
pub const IORING_ENTER_GETEVENTS: u32 = 1;

/// Wait with a timeout that takes no entry of its own.
pub const IORING_ENTER_EXT_ARG: u32 = 8;

/// Where the submission queue is mapped from.
pub const IORING_OFF_SQ_RING: u64 = 0;

/// Where the completion queue is mapped from.
pub const IORING_OFF_CQ_RING: u64 = 0x800_0000;

/// Where the submission entries are mapped from.
pub const IORING_OFF_SQES: u64 = 0x1000_0000;

/// Bytes of a submission entry.
pub const SQE_SIZE: usize = 64;

/// Bytes of a completion entry.
pub const CQE_SIZE: usize = 16;

/// What the kernel says of a ring it has set up.
#[derive(Clone, Copy, Debug, PartialEq, Eq, Structural)]
pub struct RingParams {
    pub sq_entries: u32,
    pub cq_entries: u32,
    pub features: u32,
    /// Where the submission queue's index array starts.
    pub sq_array: u32,
    /// Where the completion entries start.
    pub cq_cqes: u32,
}

/// How a ring is to be mapped.
#[derive(Clone, Copy, Debug, PartialEq, Eq, Structural)]
pub struct RingLayout {
    /// Bytes of the submission queue, and of the completion queue too where they share a mapping.
    pub sq_len: u64,
    /// Bytes of the completion queue.
    pub cq_len: u64,
    /// Bytes of the submission entries.
    pub sqe_len: u64,
    /// Whether the two queues share one mapping.
    pub single: bool,
    /// Whether a wait can carry its timeout with it.
    pub ext_arg: bool,
}

/// How a ring is to be mapped: the index array and the entries lie at the end of their queues, and a
/// shared mapping has to hold the longer one.
pub open spec fn layout_of(p: RingParams) -> RingLayout {
    let sq = p.sq_array + 4 * p.sq_entries;
    let cq = p.cq_cqes + 16 * p.cq_entries;
    let single = p.features & 1 != 0;
    RingLayout {
        sq_len: (if single && cq > sq {
            cq
        } else {
            sq
        }) as u64,
        cq_len: cq as u64,
        sqe_len: (64 * p.sq_entries) as u64,
        single,
        ext_arg: p.features & 0x100 != 0,
    }
}

/// Works out how a ring is to be mapped.
pub fn ring_layout(p: RingParams) -> (layout: RingLayout)
    ensures
        layout == layout_of(p),
{
    let mut sq_len: u64 = p.sq_array as u64 + 4 * (p.sq_entries as u64);
    let cq_len: u64 = p.cq_cqes as u64 + 16 * (p.cq_entries as u64);
    let single: bool = p.features & 1 != 0;
    if single && cq_len > sq_len {
        sq_len = cq_len;
    }
    RingLayout {
        sq_len,
        cq_len,
        sqe_len: 64 * (p.sq_entries as u64),
        single,
        ext_arg: p.features & 0x100 != 0,
    }
}

/// A stretch of the ring to be mapped.
#[derive(Clone, Copy, Debug, PartialEq, Eq, Structural)]
pub struct Mapping {
    pub len: u64,
    pub offset: u64,
}

/// What of a ring is to be mapped, in this order.
#[derive(Clone, Copy, Debug, PartialEq, Eq, Structural)]
pub struct Mappings {
    /// The submission queue, with the completion queue in it where they share a mapping.
    pub submission: Mapping,
    /// The completion queue, where it has a mapping of its own.
    pub completion: Option<Mapping>,
    /// The submission entries.
    pub entries: Mapping,
}

/// Works out what of a ring is to be mapped.
pub fn mappings(layout: RingLayout) -> (m: Mappings)
    ensures
        m == (Mappings {
            submission: Mapping { len: layout.sq_len, offset: IORING_OFF_SQ_RING },
            completion: if layout.single {
                None
            } else {
                Some(Mapping { len: layout.cq_len, offset: IORING_OFF_CQ_RING })
            },
            entries: Mapping { len: layout.sqe_len, offset: IORING_OFF_SQES },
        }),
{
    Mappings {
        submission: Mapping { len: layout.sq_len, offset: IORING_OFF_SQ_RING },
        completion: if layout.single {
            None
        } else {
            Some(Mapping { len: layout.cq_len, offset: IORING_OFF_CQ_RING })
        },
        entries: Mapping { len: layout.sqe_len, offset: IORING_OFF_SQES },
    }
}

/// Every queue fits the mapping it lies in.
pub proof fn the_queues_fit_their_mappings(p: RingParams)
    ensures
        ({
            let layout = layout_of(p);
            &&& p.sq_array + 4 * p.sq_entries <= layout.sq_len
            &&& layout.single ==> p.cq_cqes + 16 * p.cq_entries <= layout.sq_len
            &&& p.cq_cqes + 16 * p.cq_entries == layout.cq_len
            &&& 64 * p.sq_entries == layout.sqe_len
        }),
{
}

/// The bytes of a submission entry that reads one report at the current position into a buffer and
/// comes back under the buffer's number.
pub open spec fn read_entry(fd: i32, address: u64, idx: u64) -> Seq<u8> {
    seq![IORING_OP_READ, 0u8, 0u8, 0u8] + wire::le32_bytes(fd as u32) + wire::le64_bytes(u64::MAX)
        + wire::le64_bytes(address) + wire::le32_bytes(64) + wire::le32_bytes(0)
        + wire::le64_bytes(idx) + Seq::new(24, |i: int| 0u8)
}

/// Builds a submission entry that reads one report.
pub fn read_sqe(fd: i32, address: u64, idx: u64) -> (sqe: Vec<u8>)
    ensures
        sqe@ == read_entry(fd, address, idx),
        sqe@.len() == SQE_SIZE,
{
    let mut sqe: Vec<u8> = Vec::new();
    sqe.push(IORING_OP_READ);
    sqe.push(0);
    sqe.push(0);
    sqe.push(0);
    wire::push_u32(&mut sqe, #[verifier::truncate] (fd as u32));
    wire::push_u64(&mut sqe, u64::MAX);
    wire::push_u64(&mut sqe, address);
    wire::push_u32(&mut sqe, FRAME_MAX as u32);
    wire::push_u32(&mut sqe, 0);
    wire::push_u64(&mut sqe, idx);
    let ghost head = sqe@;
    let mut i: usize = 0;
    while i < 24
        invariant
            i <= 24,
            head.len() == 40,
            sqe@ == head + Seq::new(i as nat, |k: int| 0u8),
        decreases 24 - i,
    {
        sqe.push(0);
        i += 1;
        assert(sqe@ =~= head + Seq::new(i as nat, |k: int| 0u8));
    }
    assert(sqe@ =~= read_entry(fd, address, idx));
    sqe
}

/// Which slot of a queue an ever-growing index falls on.
pub fn slot(index: u32, mask: u32) -> (s: u32)
    ensures
        s == index & mask,
        s <= mask,
{
    assert(index & mask <= mask) by (bit_vector);
    index & mask
}

/// Reads a completion entry: the number of the buffer, and what the read came to.
pub fn completion(cqe: &[u8]) -> (c: (u64, i32))
    requires
        cqe@.len() >= 12,
    ensures
        c.0 == wire::le32_at(cqe@, 0) + 0x1_0000_0000 * wire::le32_at(cqe@, 4),
        c.1 == wire::le32_at(cqe@, 8) as i32,
{
    let low: u64 = wire::u32_at(cqe, 0) as u64;
    let high: u64 = wire::u32_at(cqe, 4) as u64;
    let res: u32 = wire::u32_at(cqe, 8);
    (low + 0x1_0000_0000 * high, #[verifier::truncate] (res as i32))
}

/// What actually goes into the kernel.
#[derive(Clone, Copy, Debug, PartialEq, Eq, Structural)]
pub struct Stats {
    pub enters: u64,
    pub completions: u64,
    pub batches: u64,
    pub max_batch: u32,
}

impl Default for Stats {
    fn default() -> (s: Stats)
        ensures
            s == (Stats { enters: 0, completions: 0, batches: 0, max_batch: 0 }),
    {
        Stats { enters: 0, completions: 0, batches: 0, max_batch: 0 }
    }
}

/// What to do next while a report is waited for.
#[derive(Clone, Copy, Debug, PartialEq, Eq, Structural)]
pub enum Step {
    /// Look for the next completion.
    Reap,
    /// Arm this buffer again, and go on.
    Rearm(usize),
    /// Hand out this many bytes of this buffer, and arm it again.
    Deliver(usize, usize),
    /// Hand in what has been armed, and give up: nothing came.
    Flush,
    /// Hand in what has been armed, and wait for a completion.
    Enter,
    /// Give up: nothing came.
    Quiet,
}

/// What a look for completions leads to. A read that brought something is a report, cut off at the
/// size of one; an error or the end of the file arms the buffer again. Without a completion there is
/// nothing for it but to wait, if waiting is allowed, but what has been armed is handed in.
pub open spec fn step_after_reap(found: Option<(usize, i32)>, timeout_ns: u64, armed: u32) -> Step {
    match found {
        Some((idx, res)) => if res > 0 {
            Step::Deliver(
                idx,
                if res < FRAME_MAX {
                    res as usize
                } else {
                    FRAME_MAX
                },
            )
        } else {
            Step::Rearm(idx)
        },
        None => if timeout_ns != 0 {
            Step::Enter
        } else if armed > 0 {
            Step::Flush
        } else {
            Step::Quiet
        },
    }
}

/// The wait for one report: how many completions it has looked at so far.
#[derive(Clone, Copy, Debug, PartialEq, Eq, Structural)]
pub struct Waiting {
    pub batch: u32,
}

impl Waiting {
    /// A wait that has looked at nothing yet.
    pub fn new() -> (w: Waiting)
        ensures
            w.batch == 0,
    {
        Waiting { batch: 0 }
    }

    /// Takes note of a look for completions, and says what to do next.
    pub fn after_reap(
        &mut self,
        stats: &mut Stats,
        found: Option<(usize, i32)>,
        timeout_ns: u64,
        armed: u32,
    ) -> (step: Step)
        ensures
            step == step_after_reap(found, timeout_ns, armed),
            found is Some ==> {
                let batch = if old(self).batch == u32::MAX {
                    u32::MAX
                } else {
                    (old(self).batch + 1) as u32
                };
                &&& final(self).batch == batch
                &&& *final(stats) == (Stats {
                    completions: crate::usbfs::one_more(old(stats).completions),
                    batches: if batch == 1 {
                        crate::usbfs::one_more(old(stats).batches)
                    } else {
                        old(stats).batches
                    },
                    max_batch: if batch > old(stats).max_batch {
                        batch
                    } else {
                        old(stats).max_batch
                    },
                    ..*old(stats)
                })
            },
            found is None ==> *final(self) == *old(self) && *final(stats) == *old(stats),
    {
        match found {
            Some((idx, res)) => {
                stats.completions = stats.completions.saturating_add(1);
                self.batch = self.batch.saturating_add(1);
                if self.batch == 1 {
                    stats.batches = stats.batches.saturating_add(1);
                }
                if self.batch > stats.max_batch {
                    stats.max_batch = self.batch;
                }
                if res > 0 {
                    let len: usize = res as usize;
                    let n: usize = if len < FRAME_MAX {
                        len
                    } else {
                        FRAME_MAX
                    };
                    return Step::Deliver(idx, n);
                }
                Step::Rearm(idx)
            },
            None => {
                if timeout_ns != 0 {
                    Step::Enter
                } else if armed > 0 {
                    Step::Flush
                } else {
                    Step::Quiet
                }
            },
        }
    }

    /// What a wait leads to: another look where a completion has come.
    pub fn after_enter(&self, empty: bool) -> (step: Step)
        ensures
            step == (if empty {
                Step::Quiet
            } else {
                Step::Reap
            }),
    {
        if empty {
            Step::Quiet
        } else {
            Step::Reap
        }
    }
}

/// How the kernel is entered.
#[derive(Clone, Copy, Debug, PartialEq, Eq, Structural)]
pub struct Entering {
    pub min_complete: u32,
    pub flags: u32,
    /// The timeout that goes along, if one does.
    pub timeout: Option<Timespec>,
}

/// How the kernel is entered to wait for at most a time: not at all where the time is zero, with the
/// timeout where it can be carried, and otherwise without one.
pub fn entering(timeout_ns: u64, ext_arg: bool) -> (e: Entering)
    ensures
        timeout_ns == 0 ==> e == (Entering { min_complete: 0, flags: 0, timeout: None }),
        timeout_ns != 0 && ext_arg && timeout_ns != u64::MAX ==> {
            &&& e.min_complete == 1
            &&& e.flags == IORING_ENTER_GETEVENTS + IORING_ENTER_EXT_ARG
            &&& e.timeout matches Some(t) && 0 <= t.nsec < 1_000_000_000 && t.sec * 1_000_000_000
                + t.nsec == timeout_ns
        },
        timeout_ns != 0 && !(ext_arg && timeout_ns != u64::MAX) ==> e == (Entering {
            min_complete: 1,
            flags: IORING_ENTER_GETEVENTS,
            timeout: None,
        }),
{
    if timeout_ns == 0 {
        return Entering { min_complete: 0, flags: 0, timeout: None };
    }
    if ext_arg && timeout_ns != u64::MAX {
        return Entering {
            min_complete: 1,
            flags: IORING_ENTER_GETEVENTS + IORING_ENTER_EXT_ARG,
            timeout: Timespec::timeout(timeout_ns),
        };
    }
    Entering { min_complete: 1, flags: IORING_ENTER_GETEVENTS, timeout: None }
}

/// A shared mapping is as long as the longer queue and no longer, and a mapping of its own as long as
/// its queue. The queues share a mapping where the lowest bit of the features is set, and a wait can
/// carry its timeout where the ninth is.
pub proof fn no_mapping_is_longer_than_its_queues(p: RingParams)
    ensures
        ({
            let layout = layout_of(p);
            &&& layout.sq_len == p.sq_array + 4 * p.sq_entries || layout.single && layout.sq_len
                == p.cq_cqes + 16 * p.cq_entries
            &&& layout.single <==> p.features % 2 == 1
            &&& layout.ext_arg <==> p.features / 0x100 % 2 == 1
        }),
{
    let features = p.features;
    assert(features & 1 != 0 <==> features % 2 == 1) by (bit_vector);
    assert(features & 0x100 != 0 <==> features / 0x100 % 2 == 1) by (bit_vector);
}

/// Every buffer that comes back is handed out or armed again under its own number, and none is
/// forgotten: it is handed out exactly where its read brought something.
pub proof fn no_buffer_is_lost(idx: usize, res: i32, timeout_ns: u64, armed: u32)
    ensures
        ({
            let step = step_after_reap(Some((idx, res)), timeout_ns, armed);
            &&& res >= 1 ==> {
                &&& step matches Step::Deliver(i, n) && i == idx && (n == res || n == 64 && res
                    > 64)
            }
            &&& res <= 0 ==> step == Step::Rearm(idx)
        }),
{
}

/// What has been armed is handed in before the wait ends without a report, and a wait that may not
/// wait never does.
pub proof fn armed_reads_are_handed_in(timeout_ns: u64, armed: u32)
    ensures
        armed > 0 ==> step_after_reap(None, timeout_ns, armed) != Step::Quiet,
        timeout_ns == 0 ==> step_after_reap(None, timeout_ns, armed) != Step::Enter,
        timeout_ns > 0 ==> step_after_reap(None, timeout_ns, armed) == Step::Enter,
        armed == 0 ==> step_after_reap(None, timeout_ns, armed) != Step::Flush,
{
}

proof fn a_word_stands(e: Seq<u8>, at: int, v: u32)
    requires
        0 <= at <= e.len() - 4,
        e.subrange(at, at + 4) == wire::le32_bytes(v),
    ensures
        wire::le32_at(e, at) == v,
{
    let part = e.subrange(at, at + 4);
    wire::le32_round_trips(v);
    assert(part[0] == e[at] && part[1] == e[at + 1] && part[2] == e[at + 2] && part[3] == e[at + 3]);
}

/// An armed read says what it is to be: a read of one report from the descriptor, at its current
/// position, into the buffer, and under the buffer's number.
#[verifier::spinoff_prover]
#[verifier::rlimit(50)]
pub proof fn an_armed_read_says_what_it_is(fd: i32, address: u64, idx: u64)
    requires
        fd >= 0,
    ensures
        ({
            let e = read_entry(fd, address, idx);
            &&& e.len() == 64
            &&& e[0] == 22 && e[1] == 0 && e[2] == 0 && e[3] == 0
            &&& wire::le32_at(e, 4) == fd
            &&& wire::le32_at(e, 8) == 0xffff_ffff && wire::le32_at(e, 12) == 0xffff_ffff
            &&& wire::le32_at(e, 16) + 0x1_0000_0000 * wire::le32_at(e, 20) == address
            &&& wire::le32_at(e, 24) == 64
            &&& wire::le32_at(e, 28) == 0
            &&& wire::le32_at(e, 32) + 0x1_0000_0000 * wire::le32_at(e, 36) == idx
            &&& forall|i: int| 40 <= i < 64 ==> #[trigger] e[i] == 0
        }),
{
    let e = read_entry(fd, address, idx);
    let low = (address % 0x1_0000_0000) as u32;
    let high = (address / 0x1_0000_0000) as u32;
    let number = (idx % 0x1_0000_0000) as u32;
    let beyond = (idx / 0x1_0000_0000) as u32;
    assert(e.subrange(4, 8) =~= wire::le32_bytes(fd as u32));
    assert(e.subrange(8, 12) =~= wire::le32_bytes(0xffff_ffff));
    assert(e.subrange(12, 16) =~= wire::le32_bytes(0xffff_ffff));
    assert(e.subrange(16, 20) =~= wire::le32_bytes(low));
    assert(e.subrange(20, 24) =~= wire::le32_bytes(high));
    assert(e.subrange(24, 28) =~= wire::le32_bytes(64));
    assert(e.subrange(28, 32) =~= wire::le32_bytes(0));
    assert(e.subrange(32, 36) =~= wire::le32_bytes(number));
    assert(e.subrange(36, 40) =~= wire::le32_bytes(beyond));
    a_word_stands(e, 4, fd as u32);
    a_word_stands(e, 8, 0xffff_ffff);
    a_word_stands(e, 12, 0xffff_ffff);
    a_word_stands(e, 16, low);
    a_word_stands(e, 20, high);
    a_word_stands(e, 24, 64);
    a_word_stands(e, 28, 0);
    a_word_stands(e, 32, number);
    a_word_stands(e, 36, beyond);
}

} // verus!
