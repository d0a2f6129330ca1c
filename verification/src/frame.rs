//! Frames, and the events they carry.
//!
//! Frame layout (little-endian):
//! ```text
//! 0  u16  preamble 0x0010
//! 2  u16  MsgID
//! 4  u16  payload length
//! 6  u16  checksum = byte sum of the payload
//! 8  ..   payload
//! ```
use crate::msg;
use crate::text;
use crate::wire;
use vstd::prelude::*;

verus! {

/// Fixed report size of the device.
pub const FRAME_MAX: usize = 64;

/// Header size preceding the payload.
pub const HEADER_LEN: usize = 8;

/// Constant preamble of every frame.
pub const PREAMBLE: u16 = 0x0010;

/// Reply MsgID = request MsgID plus this offset.
pub const RESPONSE_OFFSET: u16 = 0x2000;

/// What can go wrong between the host and the glasses.
#[derive(Clone, Copy, PartialEq, Eq, Debug, Structural)]
pub enum Error {
    /// The operating system refused; its error number, where there is one.
    Io(Option<i32>),
    /// Frame was shorter than the header or carried the wrong preamble.
    Malformed,
    /// Checksum did not match.
    Checksum,
    /// Device reported a non-zero status byte.
    Status(u8),
    /// No matching reply arrived within the time window.
    Timeout,
    /// Payload did not fit the destination buffer.
    Overflow,
}

/// What an error says, where the operating system's own words for it are `words`.
pub open spec fn message_of(error: Error, words: Seq<u8>) -> Seq<u8> {
    match error {
        Error::Io(_) => text::ascii("I/O: ") + words,
        Error::Malformed => text::ascii("malformed frame"),
        Error::Checksum => text::ascii("checksum mismatch"),
        Error::Status(status) => text::ascii("device reports status ") + text::decimal(
            status as nat,
        ),
        Error::Timeout => text::ascii("timed out"),
        Error::Overflow => text::ascii("payload too large for buffer"),
    }
}

impl Error {
    /// What the error says. Where the operating system refused, it is its own words for it that are
    /// said, and they are the caller's to get; no other error looks at them.
    pub fn message(&self, words: &[u8]) -> (m: Vec<u8>)
        ensures
            m@ == message_of(*self, words@),
    {
        proof {
            reveal_strlit("I/O: ");
            reveal_strlit("malformed frame");
            reveal_strlit("checksum mismatch");
            reveal_strlit("device reports status ");
            reveal_strlit("timed out");
            reveal_strlit("payload too large for buffer");
        }
        let mut m: Vec<u8> = Vec::new();
        match *self {
            Error::Io(_) => {
                wire::push_all(&mut m, text::ascii_bytes("I/O: "));
                wire::push_all(&mut m, words);
            },
            Error::Malformed => wire::push_all(&mut m, text::ascii_bytes("malformed frame")),
            Error::Checksum => wire::push_all(&mut m, text::ascii_bytes("checksum mismatch")),
            Error::Status(status) => {
                wire::push_all(&mut m, text::ascii_bytes("device reports status "));
                text::push_decimal(&mut m, status as usize);
            },
            Error::Timeout => wire::push_all(&mut m, text::ascii_bytes("timed out")),
            Error::Overflow => wire::push_all(
                &mut m,
                text::ascii_bytes("payload too large for buffer"),
            ),
        }
        assert(m@ =~= message_of(*self, words@));
        m
    }
}

/// The sum of all bytes.
pub open spec fn byte_sum(s: Seq<u8>) -> nat
    decreases s.len(),
{
    if s.len() == 0 {
        0
    } else {
        byte_sum(s.drop_last()) + s.last() as nat
    }
}

/// The checksum of a payload: its byte sum in 16 bits.
pub open spec fn checksum(payload: Seq<u8>) -> u16 {
    (byte_sum(payload) % 0x1_0000) as u16
}

/// The frame that carries `payload` under `msg_id`.
pub open spec fn frame_bytes(msg_id: u16, payload: Seq<u8>) -> Seq<u8> {
    wire::le16_bytes(PREAMBLE) + wire::le16_bytes(msg_id) + wire::le16_bytes(payload.len() as u16)
        + wire::le16_bytes(checksum(payload)) + payload
}

/// What a received report holds: the MsgID and the payload, or why it is refused.
pub open spec fn parsed(report: Seq<u8>) -> Result<(u16, Seq<u8>), Error> {
    if report.len() < HEADER_LEN || wire::le16_at(report, 0) != PREAMBLE {
        Err(Error::Malformed)
    } else {
        let end = HEADER_LEN + wire::le16_at(report, 4);
        if end > report.len() {
            Err(Error::Malformed)
        } else {
            let payload = report.subrange(HEADER_LEN as int, end);
            if checksum(payload) != wire::le16_at(report, 6) {
                Err(Error::Checksum)
            } else {
                Ok((wire::le16_at(report, 2), payload))
            }
        }
    }
}

fn sum_bytes(payload: &[u8]) -> (sum: u16)
    ensures
        sum == checksum(payload@),
{
    let mut sum: u16 = 0;
    let mut i: usize = 0;
    while i < payload.len()
        invariant
            i <= payload@.len(),
            sum == checksum(payload@.subrange(0, i as int)),
        decreases payload@.len() - i,
    {
        proof {
            let next = payload@.subrange(0, i + 1);
            assert(next.drop_last() =~= payload@.subrange(0, i as int));
            assert(next.last() == payload@[i as int]);
        }
        sum = sum.wrapping_add(payload[i] as u16);
        i += 1;
    }
    assert(payload@.subrange(0, i as int) =~= payload@);
    sum
}

fn put_u16(buf: &mut [u8; FRAME_MAX], at: usize, v: u16)
    requires
        at + 2 <= FRAME_MAX,
    ensures
        final(buf)@ == old(buf)@.update(at as int, wire::le16_bytes(v)[0]).update(
            at + 1,
            wire::le16_bytes(v)[1],
        ),
{
    buf[at] = (v % 0x100) as u8;
    buf[at + 1] = (v / 0x100) as u8;
}

/// Builds a frame into `buf` and returns the part that was filled.
///
/// A payload that does not fit is refused with [`Error::Overflow`], and `buf` is left as it was.
pub fn build<'a>(buf: &'a mut [u8; FRAME_MAX], msg_id: u16, payload: &[u8]) -> (r: Result<
    &'a [u8],
    Error,
>)
    ensures
        match r {
            Ok(frame) => {
                let end = HEADER_LEN + payload@.len();
                &&& end <= FRAME_MAX
                &&& frame@ == frame_bytes(msg_id, payload@)
                &&& final(buf)@ == frame_bytes(msg_id, payload@) + old(buf)@.skip(end as int)
            },
            Err(e) => {
                &&& HEADER_LEN + payload@.len() > FRAME_MAX
                &&& e == Error::Overflow
                &&& final(buf)@ == old(buf)@
            },
        },
{
    if payload.len() > FRAME_MAX - HEADER_LEN {
        return Err(Error::Overflow);
    }
    let end: usize = HEADER_LEN + payload.len();
    let ghost before = buf@;
    let sum: u16 = sum_bytes(payload);
    put_u16(buf, 0, PREAMBLE);
    put_u16(buf, 2, msg_id);
    put_u16(buf, 4, payload.len() as u16);
    put_u16(buf, 6, sum);
    let ghost header = buf@.take(8);
    let mut i: usize = 0;
    while i < payload.len()
        invariant
            i <= payload@.len() <= FRAME_MAX - HEADER_LEN,
            buf@.len() == before.len() == FRAME_MAX,
            buf@.take(8) == header,
            forall|k: int| 0 <= k < i ==> buf@[8 + k] == payload@[k],
            forall|k: int| 8 + i <= k < FRAME_MAX ==> buf@[k] == before[k],
        decreases payload@.len() - i,
    {
        buf[HEADER_LEN + i] = payload[i];
        i += 1;
        assert(buf@.take(8) =~= header);
    }
    proof {
        let frame = frame_bytes(msg_id, payload@);
        assert(frame.take(8) =~= header);
        assert forall|k: int| 0 <= k < end implies buf@[k] == frame[k] by {
            if k < 8 {
                assert(buf@[k] == buf@.take(8)[k]);
                assert(frame[k] == frame.take(8)[k]);
            } else {
                assert(buf@[8 + (k - 8)] == payload@[k - 8]);
            }
        }
        assert(buf@ =~= frame + before.skip(end as int));
        assert(buf@.subrange(0, end as int) =~= frame);
    }
    Ok(vstd::slice::slice_subrange(buf.as_slice(), 0, end))
}

/// A received frame; borrows from the receive buffer.
#[derive(Clone, Copy)]
pub struct Frame<'a> {
    pub msg_id: u16,
    pub payload: &'a [u8],
}

impl<'a> View for Frame<'a> {
    type V = (u16, Seq<u8>);

    open spec fn view(&self) -> (u16, Seq<u8>) {
        (self.msg_id, self.payload@)
    }
}

/// Splits a received report apart, checking preamble, length and checksum.
pub fn parse<'a>(buf: &'a [u8]) -> (r: Result<Frame<'a>, Error>)
    ensures
        match r {
            Ok(frame) => parsed(buf@) == Ok::<(u16, Seq<u8>), Error>(frame@),
            Err(e) => parsed(buf@) == Err::<(u16, Seq<u8>), Error>(e),
        },
{
    if buf.len() < HEADER_LEN {
        return Err(Error::Malformed);
    }
    if wire::u16_at(buf, 0) != PREAMBLE {
        return Err(Error::Malformed);
    }
    let msg_id: u16 = wire::u16_at(buf, 2);
    let end: usize = HEADER_LEN + wire::u16_at(buf, 4) as usize;
    if end > buf.len() {
        return Err(Error::Malformed);
    }
    let payload = vstd::slice::slice_subrange(buf, HEADER_LEN, end);
    if sum_bytes(payload) != wire::u16_at(buf, 6) {
        return Err(Error::Checksum);
    }
    Ok(Frame { msg_id, payload })
}

proof fn byte_sum_of_update(s: Seq<u8>, at: int, b: u8)
    requires
        0 <= at < s.len(),
    ensures
        byte_sum(s.update(at, b)) == byte_sum(s) - s[at] + b,
    decreases s.len(),
{
    let t = s.update(at, b);
    if at == s.len() - 1 {
        assert(t.drop_last() =~= s.drop_last());
    } else {
        assert(t.drop_last() =~= s.drop_last().update(at, b));
        byte_sum_of_update(s.drop_last(), at, b);
    }
}

proof fn frame_fields(msg_id: u16, payload: Seq<u8>, tail: Seq<u8>)
    requires
        payload.len() <= u16::MAX,
    ensures
        ({
            let report = frame_bytes(msg_id, payload) + tail;
            &&& report.len() == HEADER_LEN + payload.len() + tail.len()
            &&& wire::le16_at(report, 0) == PREAMBLE
            &&& wire::le16_at(report, 2) == msg_id
            &&& wire::le16_at(report, 4) == payload.len()
            &&& wire::le16_at(report, 6) == checksum(payload)
            &&& report.subrange(HEADER_LEN as int, HEADER_LEN + payload.len()) == payload
        }),
{
    let report = frame_bytes(msg_id, payload) + tail;
    wire::le16_round_trips(PREAMBLE);
    wire::le16_round_trips(msg_id);
    wire::le16_round_trips(payload.len() as u16);
    wire::le16_round_trips(checksum(payload));
    assert(report.subrange(HEADER_LEN as int, HEADER_LEN + payload.len()) =~= payload);
}

/// A built frame reads back as what was put into it, whatever follows it in the report: the
/// device's reports are padded to their fixed size.
pub proof fn a_built_frame_reads_back(msg_id: u16, payload: Seq<u8>, tail: Seq<u8>)
    requires
        HEADER_LEN + payload.len() <= FRAME_MAX,
    ensures
        parsed(frame_bytes(msg_id, payload) + tail) == Ok::<(u16, Seq<u8>), Error>(
            (msg_id, payload),
        ),
{
    frame_fields(msg_id, payload, tail);
}

/// Whatever is accepted starts with the very frame that building it again gives.
pub proof fn only_built_frames_are_accepted(report: Seq<u8>)
    requires
        parsed(report) is Ok,
    ensures
        ({
            let (msg_id, payload) = parsed(report)->Ok_0;
            frame_bytes(msg_id, payload).is_prefix_of(report)
        }),
{
    let (msg_id, payload) = parsed(report)->Ok_0;
    let frame = frame_bytes(msg_id, payload);
    assert(frame =~= report.subrange(0, frame.len() as int));
}

/// One altered payload byte is always caught, and is reported as a checksum mismatch.
pub proof fn an_altered_payload_byte_is_caught(
    msg_id: u16,
    payload: Seq<u8>,
    tail: Seq<u8>,
    at: int,
    byte: u8,
)
    requires
        HEADER_LEN + payload.len() <= FRAME_MAX,
        0 <= at < payload.len(),
        byte != payload[at],
    ensures
        parsed((frame_bytes(msg_id, payload) + tail).update(HEADER_LEN + at, byte)) == Err::<
            (u16, Seq<u8>),
            Error,
        >(Error::Checksum),
{
    let report = frame_bytes(msg_id, payload) + tail;
    let altered = report.update(HEADER_LEN + at, byte);
    frame_fields(msg_id, payload, tail);
    byte_sum_of_update(payload, at, byte);
    assert(altered.subrange(HEADER_LEN as int, HEADER_LEN + payload.len()) =~= payload.update(
        at,
        byte,
    ));
}

proof fn sums_add_up(a: Seq<u8>, b: Seq<u8>)
    ensures
        byte_sum(a + b) == byte_sum(a) + byte_sum(b),
    decreases b.len(),
{
    if b.len() == 0 {
        assert(a + b =~= a);
    } else {
        assert((a + b).drop_last() =~= a + b.drop_last());
        sums_add_up(a, b.drop_last());
    }
}

/// A checksum is a sum of bytes: of nothing it is zero, of one byte that byte, and of two runs of bytes
/// the sum of theirs, in 16 bits.
pub proof fn checksums_add_up(a: Seq<u8>, b: Seq<u8>, byte: u8)
    ensures
        checksum(Seq::<u8>::empty()) == 0,
        checksum(seq![byte]) == byte,
        checksum(a + b) == (checksum(a) + checksum(b)) % 0x1_0000,
{
    sums_add_up(a, b);
    assert(seq![byte].drop_last() =~= Seq::<u8>::empty());
    assert(byte_sum(seq![byte].drop_last()) == 0);
}

/// A frame is laid out as the device expects it: four numbers of two bytes, the less significant one
/// first (sixteen, the MsgID, the length of the payload and its checksum), and then the payload.
pub proof fn a_frame_is_laid_out(msg_id: u16, payload: Seq<u8>, i: int)
    requires
        payload.len() <= 56,
        0 <= i < payload.len(),
    ensures
        ({
            let frame = frame_bytes(msg_id, payload);
            &&& frame.len() == 8 + payload.len()
            &&& frame[0] == 16 && frame[1] == 0
            &&& frame[2] + 256 * frame[3] == msg_id
            &&& frame[4] + 256 * frame[5] == payload.len()
            &&& frame[6] + 256 * frame[7] == checksum(payload)
            &&& frame[8 + i] == payload[i]
        }),
{
    frame_fields(msg_id, payload, Seq::empty());
    let frame = frame_bytes(msg_id, payload);
    assert(frame + Seq::<u8>::empty() =~= frame);
}

/// A report that is no frame is refused for what is wrong with it: one that is too short for a header
/// or for its own length, or starts with anything but sixteen, is malformed; any other is accepted or
/// has a wrong checksum.
pub proof fn a_report_is_refused_for_a_reason(report: Seq<u8>)
    ensures
        ({
            let len = report[4] + 256 * report[5];
            let sound = report.len() >= 8 && report[0] == 16 && report[1] == 0 && 8 + len
                <= report.len();
            let sum = checksum(report.subrange(8, 8 + len));
            &&& parsed(report) == Err::<(u16, Seq<u8>), Error>(Error::Malformed) <==> !sound
            &&& sound && report[6] + 256 * report[7] == sum ==> parsed(report) == Ok::<
                (u16, Seq<u8>),
                Error,
            >(((report[2] + 256 * report[3]) as u16, report.subrange(8, 8 + len)))
            &&& sound && report[6] + 256 * report[7] != sum ==> parsed(report) == Err::<
                (u16, Seq<u8>),
                Error,
            >(Error::Checksum)
        }),
{
}

/// The MsgID under which a request is answered.
pub open spec fn reply_id(msg_id: u16) -> u16 {
    ((msg_id + RESPONSE_OFFSET) % 0x1_0000) as u16
}

/// Two requests are told apart by their replies: no two MsgIDs share a reply MsgID.
pub proof fn replies_are_told_apart(a: u16, b: u16)
    requires
        reply_id(a) == reply_id(b),
    ensures
        a == b,
{
}

/// Which IMU streams should run. This is a bitmask on the wire.
#[derive(Clone, Copy, PartialEq, Eq, Debug, Structural)]
pub struct Streams(pub u8);

impl Streams {
    /// No stream at all.
    pub fn off() -> (s: Streams)
        ensures
            s == Streams(0x00),
    {
        Streams(0x00)
    }

    /// Fused orientations.
    pub fn pose() -> (s: Streams)
        ensures
            s == Streams(0x01),
    {
        Streams(0x01)
    }

    /// Gyroscope and accelerometer readings.
    pub fn raw() -> (s: Streams)
        ensures
            s == Streams(0x02),
    {
        Streams(0x02)
    }

    /// These streams and the other ones.
    pub fn with(self, other: Streams) -> (both: Streams)
        ensures
            both.0 == self.0 | other.0,
    {
        Streams(self.0 | other.0)
    }

    /// Whether all of the other streams are among these.
    pub open spec fn covers(self, other: Streams) -> bool {
        self.0 & other.0 == other.0
    }

    /// Whether all of the other streams are among these.
    pub fn has(self, other: Streams) -> (b: bool)
        ensures
            b == self.covers(other),
    {
        self.0 & other.0 == other.0
    }
}

/// Joining two sets of streams loses none of either, and brings in no third stream.
pub proof fn joined_streams_hold_both(a: Streams, b: Streams, other: Streams)
    ensures
        Streams(a.0 | b.0).covers(a),
        Streams(a.0 | b.0).covers(b),
        other.covers(a) && other.covers(b) ==> other.covers(Streams(a.0 | b.0)),
{
    let x = a.0;
    let y = b.0;
    let z = other.0;
    assert((x | y) & x == x) by (bit_vector);
    assert((x | y) & y == y) by (bit_vector);
    assert(z & x == x && z & y == y ==> z & (x | y) == x | y) by (bit_vector);
}

/// Reporting rate. The Pro 2 supports raw up to 1000 Hz, pose only to 240 Hz.
#[derive(Clone, Copy, PartialEq, Eq, Debug, Structural)]
pub enum Rate {
    Hz60,
    Hz90,
    Hz120,
    Hz240,
    Hz500,
    Hz1000,
}

impl Rate {
    /// The byte that stands for the rate on the wire.
    pub open spec fn wire_code(self) -> u8 {
        match self {
            Rate::Hz60 => 0,
            Rate::Hz90 => 1,
            Rate::Hz120 => 2,
            Rate::Hz240 => 3,
            Rate::Hz500 => 4,
            Rate::Hz1000 => 5,
        }
    }

    /// The byte that stands for the rate on the wire.
    pub fn code(self) -> (code: u8)
        ensures
            code == self.wire_code(),
    {
        match self {
            Rate::Hz60 => 0,
            Rate::Hz90 => 1,
            Rate::Hz120 => 2,
            Rate::Hz240 => 3,
            Rate::Hz500 => 4,
            Rate::Hz1000 => 5,
        }
    }

    /// Samples per second.
    pub open spec fn per_second(self) -> u32 {
        match self {
            Rate::Hz60 => 60,
            Rate::Hz90 => 90,
            Rate::Hz120 => 120,
            Rate::Hz240 => 240,
            Rate::Hz500 => 500,
            Rate::Hz1000 => 1000,
        }
    }

    /// Samples per second.
    pub fn hz(self) -> (hz: u32)
        ensures
            hz == self.per_second(),
    {
        match self {
            Rate::Hz60 => 60,
            Rate::Hz90 => 90,
            Rate::Hz120 => 120,
            Rate::Hz240 => 240,
            Rate::Hz500 => 500,
            Rate::Hz1000 => 1000,
        }
    }
}

/// Display modes, as the device reports them under [`msg::DISPLAY_MODE`].
#[derive(Clone, Copy, PartialEq, Eq, Debug, Structural)]
pub enum DisplayMode {
    P1080_60,
    Sbs3840x1080_60,
    P1080_90,
    P1080_120,
    Sbs3840x1080_90,
    Unknown,
}

impl DisplayMode {
    /// The mode that a byte on the wire stands for.
    pub open spec fn of_raw(v: u8) -> DisplayMode {
        match v {
            0x31 => DisplayMode::P1080_60,
            0x32 => DisplayMode::Sbs3840x1080_60,
            0x33 => DisplayMode::P1080_90,
            0x34 => DisplayMode::P1080_120,
            0x35 => DisplayMode::Sbs3840x1080_90,
            _ => DisplayMode::Unknown,
        }
    }

    /// The byte that stands for the mode on the wire; zero for an unknown mode.
    pub open spec fn wire_code(self) -> u8 {
        match self {
            DisplayMode::P1080_60 => 0x31,
            DisplayMode::Sbs3840x1080_60 => 0x32,
            DisplayMode::P1080_90 => 0x33,
            DisplayMode::P1080_120 => 0x34,
            DisplayMode::Sbs3840x1080_90 => 0x35,
            DisplayMode::Unknown => 0,
        }
    }

    /// The mode that a byte on the wire stands for.
    pub fn from_raw(v: u8) -> (mode: DisplayMode)
        ensures
            mode == DisplayMode::of_raw(v),
    {
        match v {
            0x31 => DisplayMode::P1080_60,
            0x32 => DisplayMode::Sbs3840x1080_60,
            0x33 => DisplayMode::P1080_90,
            0x34 => DisplayMode::P1080_120,
            0x35 => DisplayMode::Sbs3840x1080_90,
            _ => DisplayMode::Unknown,
        }
    }

    /// The byte that stands for the mode on the wire; zero for an unknown mode.
    pub fn raw(self) -> (v: u8)
        ensures
            v == self.wire_code(),
    {
        match self {
            DisplayMode::P1080_60 => 0x31,
            DisplayMode::Sbs3840x1080_60 => 0x32,
            DisplayMode::P1080_90 => 0x33,
            DisplayMode::P1080_120 => 0x34,
            DisplayMode::Sbs3840x1080_90 => 0x35,
            DisplayMode::Unknown => 0,
        }
    }
}

/// Every display mode reads back from its own byte.
pub proof fn display_modes_read_back(mode: DisplayMode)
    ensures
        DisplayMode::of_raw(mode.wire_code()) == mode,
{
}

/// Fused orientation. `tick` counts inside the device, `q` is `[w, x, y, z]`, each component as
/// the bit pattern of a single-precision number.
#[derive(Clone, Copy, Debug, PartialEq, Eq)]
pub struct Pose {
    pub tick: u32,
    pub q: [u32; 4],
}

impl Pose {
    /// Whether this is the orientation that an event's payload carries: `u32 unknown, u32 tick,
    /// 4x f32`.
    pub open spec fn carried_by(self, p: Seq<u8>) -> bool {
        &&& p.len() >= 24
        &&& self.tick == wire::le32_at(p, 4)
        &&& forall|k: int| 0 <= k < 4 ==> self.q@[k] == wire::le32_at(p, 8 + 4 * k)
    }

    /// Payload of [`msg::EVT_POSE`]: `u32 unknown, u32 tick, 4x f32`.
    pub fn parse(p: &[u8]) -> (r: Result<Pose, Error>)
        ensures
            match r {
                Ok(pose) => pose.carried_by(p@),
                Err(e) => p@.len() < 24 && e == Error::Malformed,
            },
    {
        if p.len() < 24 {
            return Err(Error::Malformed);
        }
        Ok(
            Pose {
                tick: wire::u32_at(p, 4),
                q: [
                    wire::u32_at(p, 8),
                    wire::u32_at(p, 12),
                    wire::u32_at(p, 16),
                    wire::u32_at(p, 20),
                ],
            },
        )
    }
}

/// Raw IMU data. Gyroscope in rad/s, acceleration in g, each component as the bit pattern of a
/// single-precision number.
#[derive(Clone, Copy, Debug, PartialEq, Eq)]
pub struct Raw {
    pub tick: u32,
    pub gyro: [u32; 3],
    pub accel: [u32; 3],
}

impl Raw {
    /// Whether these are the readings that an event's payload carries: like a pose, but with a
    /// `u16` before the floats.
    pub open spec fn carried_by(self, p: Seq<u8>) -> bool {
        &&& p.len() >= 34
        &&& self.tick == wire::le32_at(p, 4)
        &&& forall|k: int| 0 <= k < 3 ==> self.gyro@[k] == wire::le32_at(p, 10 + 4 * k)
        &&& forall|k: int| 0 <= k < 3 ==> self.accel@[k] == wire::le32_at(p, 22 + 4 * k)
    }

    /// Payload of [`msg::EVT_RAW`]: like pose, but with a u16 before the floats, hence offset 10
    /// instead of 8.
    pub fn parse(p: &[u8]) -> (r: Result<Raw, Error>)
        ensures
            match r {
                Ok(raw) => raw.carried_by(p@),
                Err(e) => p@.len() < 34 && e == Error::Malformed,
            },
    {
        if p.len() < 34 {
            return Err(Error::Malformed);
        }
        Ok(
            Raw {
                tick: wire::u32_at(p, 4),
                gyro: [wire::u32_at(p, 10), wire::u32_at(p, 14), wire::u32_at(p, 18)],
                accel: [wire::u32_at(p, 22), wire::u32_at(p, 26), wire::u32_at(p, 30)],
            },
        )
    }
}

/// A received event, if it is one of the known kinds.
#[derive(Clone, Copy, Debug, PartialEq, Eq)]
pub enum Event {
    Pose(Pose),
    Raw(Raw),
    /// Anything else: the MsgID is kept for further mapping.
    Other(u16),
}

/// Whether reading a report as an event comes out as `r`. An empty report is a wait that ran out.
pub open spec fn reads_as_event(report: Seq<u8>, r: Result<Option<Event>, Error>) -> bool {
    if report.len() == 0 {
        r == Ok::<Option<Event>, Error>(None)
    } else {
        match parsed(report) {
            Err(e) => r == Err::<Option<Event>, Error>(e),
            Ok((msg_id, payload)) => match r {
                Ok(Some(Event::Pose(pose))) => msg_id == msg::EVT_POSE && pose.carried_by(payload),
                Ok(Some(Event::Raw(raw))) => msg_id == msg::EVT_RAW && raw.carried_by(payload),
                Ok(Some(Event::Other(id))) => {
                    id == msg_id && id != msg::EVT_POSE && id != msg::EVT_RAW
                },
                Ok(None) => false,
                Err(e) => {
                    &&& e == Error::Malformed
                    &&& (msg_id == msg::EVT_POSE && payload.len() < 24) || (msg_id == msg::EVT_RAW
                        && payload.len() < 34)
                },
            },
        }
    }
}

impl Event {
    /// Reads a report as an event. An empty report is a wait that ran out, and gives `None`.
    pub fn read(report: &[u8]) -> (r: Result<Option<Event>, Error>)
        ensures
            reads_as_event(report@, r),
    {
        if report.len() == 0 {
            return Ok(None);
        }
        let frame = match parse(report) {
            Ok(frame) => frame,
            Err(e) => {
                return Err(e);
            },
        };
        if frame.msg_id == msg::EVT_POSE {
            match Pose::parse(frame.payload) {
                Ok(pose) => Ok(Some(Event::Pose(pose))),
                Err(e) => Err(e),
            }
        } else if frame.msg_id == msg::EVT_RAW {
            match Raw::parse(frame.payload) {
                Ok(raw) => Ok(Some(Event::Raw(raw))),
                Err(e) => Err(e),
            }
        } else {
            Ok(Some(Event::Other(frame.msg_id)))
        }
    }
}

/// Whether a number of 32 bits was written at a place, the less significant bytes first.
pub open spec fn is_written(p: Seq<u8>, at: int, v: u32) -> bool {
    0 <= at && at + 4 <= p.len() && p[at] + 256 * p[at + 1] + 65_536 * p[at + 2] + 16_777_216 * p[at
        + 3] == v
}

proof fn a_pose_frame_carries_it(payload: Seq<u8>, rest: Seq<u8>, r: Result<Option<Event>, Error>)
    requires
        24 <= payload.len() <= 56,
        reads_as_event(frame_bytes(0x7308, payload) + rest, r),
    ensures
        r matches Ok(Some(Event::Pose(pose))) && pose.carried_by(payload),
{
    a_built_frame_reads_back(0x7308, payload, rest);
}

proof fn a_raw_frame_carries_them(payload: Seq<u8>, rest: Seq<u8>, r: Result<Option<Event>, Error>)
    requires
        34 <= payload.len() <= 56,
        reads_as_event(frame_bytes(0x7309, payload) + rest, r),
    ensures
        r matches Ok(Some(Event::Raw(raw))) && raw.carried_by(payload),
{
    a_built_frame_reads_back(0x7309, payload, rest);
}

proof fn carried_components(pose: Pose, p: Seq<u8>, tick: u32, w: u32, x: u32, y: u32, z: u32)
    requires
        pose.carried_by(p),
        is_written(p, 4, tick),
        is_written(p, 8, w),
        is_written(p, 12, x),
        is_written(p, 16, y),
        is_written(p, 20, z),
    ensures
        pose.tick == tick,
        pose.q@ == seq![w, x, y, z],
{
    assert(pose.q@[0] == wire::le32_at(p, 8 + 4 * 0int));
    assert(pose.q@[1] == wire::le32_at(p, 8 + 4 * 1int));
    assert(pose.q@[2] == wire::le32_at(p, 8 + 4 * 2int));
    assert(pose.q@[3] == wire::le32_at(p, 8 + 4 * 3int));
    assert(pose.q@ =~= seq![w, x, y, z]);
}

proof fn carried_readings(
    raw: Raw,
    p: Seq<u8>,
    tick: u32,
    gyro: (u32, u32, u32),
    accel: (u32, u32, u32),
)
    requires
        raw.carried_by(p),
        is_written(p, 4, tick),
        is_written(p, 10, gyro.0),
        is_written(p, 14, gyro.1),
        is_written(p, 18, gyro.2),
        is_written(p, 22, accel.0),
        is_written(p, 26, accel.1),
        is_written(p, 30, accel.2),
    ensures
        raw.tick == tick,
        raw.gyro@ == seq![gyro.0, gyro.1, gyro.2],
        raw.accel@ == seq![accel.0, accel.1, accel.2],
{
    assert(raw.gyro@[0] == wire::le32_at(p, 10 + 4 * 0int));
    assert(raw.gyro@[1] == wire::le32_at(p, 10 + 4 * 1int));
    assert(raw.gyro@[2] == wire::le32_at(p, 10 + 4 * 2int));
    assert(raw.accel@[0] == wire::le32_at(p, 22 + 4 * 0int));
    assert(raw.accel@[1] == wire::le32_at(p, 22 + 4 * 1int));
    assert(raw.accel@[2] == wire::le32_at(p, 22 + 4 * 2int));
    assert(raw.gyro@ =~= seq![gyro.0, gyro.1, gyro.2]);
    assert(raw.accel@ =~= seq![accel.0, accel.1, accel.2]);
}

/// An orientation that the device sends is read as it was sent: the counter, and the four components in
/// their order.
pub proof fn a_sent_pose_is_read(
    payload: Seq<u8>,
    tick: u32,
    w: u32,
    x: u32,
    y: u32,
    z: u32,
    rest: Seq<u8>,
    r: Result<Option<Event>, Error>,
)
    requires
        payload.len() <= 56,
        is_written(payload, 4, tick),
        is_written(payload, 8, w),
        is_written(payload, 12, x),
        is_written(payload, 16, y),
        is_written(payload, 20, z),
        reads_as_event(frame_bytes(0x7308, payload) + rest, r),
    ensures
        r matches Ok(Some(Event::Pose(pose))) && pose.tick == tick && pose.q@ == seq![w, x, y, z],
{
    a_pose_frame_carries_it(payload, rest, r);
    if let Ok(Some(Event::Pose(pose))) = r {
        carried_components(pose, payload, tick, w, x, y, z);
    }
}

/// Readings that the device sends are read as they were sent: the counter, the three rates about the
/// axes and the three accelerations along them.
pub proof fn sent_readings_are_read(
    payload: Seq<u8>,
    tick: u32,
    gyro: (u32, u32, u32),
    accel: (u32, u32, u32),
    rest: Seq<u8>,
    r: Result<Option<Event>, Error>,
)
    requires
        payload.len() <= 56,
        is_written(payload, 4, tick),
        is_written(payload, 10, gyro.0),
        is_written(payload, 14, gyro.1),
        is_written(payload, 18, gyro.2),
        is_written(payload, 22, accel.0),
        is_written(payload, 26, accel.1),
        is_written(payload, 30, accel.2),
        reads_as_event(frame_bytes(0x7309, payload) + rest, r),
    ensures
        r matches Ok(Some(Event::Raw(raw))) && raw.tick == tick && raw.gyro@ == seq![
            gyro.0,
            gyro.1,
            gyro.2,
        ] && raw.accel@ == seq![accel.0, accel.1, accel.2],
{
    a_raw_frame_carries_them(payload, rest, r);
    if let Ok(Some(Event::Raw(raw))) = r {
        carried_readings(raw, payload, tick, gyro, accel);
    }
}

/// An event of another kind keeps its MsgID, and one of a known kind that is too short for what it
/// carries is malformed.
pub proof fn other_events_keep_their_number(
    msg_id: u16,
    payload: Seq<u8>,
    rest: Seq<u8>,
    r: Result<Option<Event>, Error>,
)
    requires
        payload.len() <= 56,
        reads_as_event(frame_bytes(msg_id, payload) + rest, r),
    ensures
        msg_id != 0x7308 && msg_id != 0x7309 ==> r == Ok::<Option<Event>, Error>(
            Some(Event::Other(msg_id)),
        ),
        msg_id == 0x7308 && payload.len() < 24 ==> r == Err::<Option<Event>, Error>(
            Error::Malformed,
        ),
        msg_id == 0x7309 && payload.len() < 34 ==> r == Err::<Option<Event>, Error>(
            Error::Malformed,
        ),
{
    a_built_frame_reads_back(msg_id, payload, rest);
}

/// A report is read as one event or one error, never as two different ones.
pub proof fn a_report_is_read_one_way(
    report: Seq<u8>,
    a: Result<Option<Event>, Error>,
    b: Result<Option<Event>, Error>,
)
    requires
        reads_as_event(report, a),
        reads_as_event(report, b),
    ensures
        a is Ok <==> b is Ok,
        a is Err ==> a == b,
        a is Ok && a->Ok_0 is None ==> a == b,
        a matches Ok(Some(Event::Pose(p))) ==> (b matches Ok(Some(Event::Pose(q))) && p.tick
            == q.tick && p.q@ == q.q@),
        a matches Ok(Some(Event::Raw(p))) ==> (b matches Ok(Some(Event::Raw(q))) && p.tick == q.tick
            && p.gyro@ == q.gyro@ && p.accel@ == q.accel@),
        a matches Ok(Some(Event::Other(_))) ==> a == b,
{
}

} // verus!
