//! A simulated pair of glasses.
//!
//! Everything above the wire is exercised by whatever the transport hands up, and the transport is
//! a trait. So the whole stack can be driven from a scripted head movement with no hardware
//! attached. It is a simulation of the device, not of the driver: real frames are built with
//! [`crate::build`] and parsed by [`crate::parse`].
use crate::device::Transport;
use crate::frame;
use crate::frame::{build, parse, Error, Rate, Streams, FRAME_MAX, RESPONSE_OFFSET};
use crate::msg;
use crate::wire;
use vstd::prelude::*;

pub mod measured;

verus! {

/// Where the head is at a given moment.
pub trait Trajectory: Sized {
    /// Whether the head can be at `q` when sample number `tick` is taken at this rate. A head that
    /// does not say can be anywhere.
    open spec fn passes(self, tick: u32, rate: Rate, q: Seq<u32>) -> bool {
        true
    }

    /// Orientation as `[w, x, y, z]` when sample number `tick` is taken at this rate, each
    /// component as the bit pattern of a single-precision number.
    fn at(&self, tick: u32, rate: Rate) -> (q: [u32; 4])
        ensures
            self.passes(tick, rate, q@),
    ;
}

/// A head that does not move.
#[derive(Clone, Copy)]
pub struct Still(pub [u32; 4]);

/// The bit pattern of 1.0.
pub const ONE: u32 = 0x3f80_0000;

impl Default for Still {
    fn default() -> (s: Still)
        ensures
            s.0@ == seq![ONE, 0, 0, 0],
    {
        let s = Still([ONE, 0, 0, 0]);
        assert(s.0@ =~= seq![ONE, 0, 0, 0]);
        s
    }
}

impl Trajectory for Still {
    open spec fn passes(self, tick: u32, rate: Rate, q: Seq<u32>) -> bool {
        q == self.0@
    }

    fn at(&self, tick: u32, rate: Rate) -> (q: [u32; 4]) {
        self.0
    }
}

/// The device's own state, as the driver can observe it.
#[derive(Clone, Copy, Debug, PartialEq, Eq, Structural)]
pub struct DeviceState {
    pub streams: Streams,
    pub rate: Rate,
    pub display_mode: u8,
    pub brightness: u8,
    pub volume: u8,
    pub worn: bool,
}

/// The state the device comes up in.
pub open spec fn initial_state() -> DeviceState {
    DeviceState {
        streams: Streams(0x00),
        rate: Rate::Hz120,
        display_mode: measured::MODE_2D,
        brightness: 5,
        volume: 60,
        worn: true,
    }
}

impl Default for DeviceState {
    fn default() -> (s: DeviceState)
        ensures
            s == initial_state(),
    {
        DeviceState {
            streams: Streams::off(),
            rate: Rate::Hz120,
            display_mode: measured::MODE_2D,
            brightness: 5,
            volume: 60,
            worn: true,
        }
    }
}

/// What a reply carries behind its status byte.
#[derive(Clone, Copy, Debug, PartialEq, Eq, Structural)]
pub enum Answer {
    /// Nothing: the command was taken.
    Done,
    /// One value.
    Value(u8),
    /// The firmware version, `SIM-1.0.0`.
    Version,
    /// The serial number, `SIMULATED`.
    Serial,
}

impl Answer {
    /// The bytes of the answer.
    pub open spec fn body(self) -> Seq<u8> {
        match self {
            Answer::Done => Seq::empty(),
            Answer::Value(v) => seq![v],
            Answer::Version => seq![0x53, 0x49, 0x4d, 0x2d, 0x31, 0x2e, 0x30, 0x2e, 0x30],
            Answer::Serial => seq![0x53, 0x49, 0x4d, 0x55, 0x4c, 0x41, 0x54, 0x45, 0x44],
        }
    }

    /// The payload of the reply: status zero, then the answer.
    fn payload(self) -> (p: Vec<u8>)
        ensures
            p@ == seq![0u8] + self.body(),
            p@.len() <= 10,
    {
        let p: Vec<u8> = match self {
            Answer::Done => vec![0],
            Answer::Value(v) => vec![0, v],
            Answer::Version => vec![0, 0x53, 0x49, 0x4d, 0x2d, 0x31, 0x2e, 0x30, 0x2e, 0x30],
            Answer::Serial => vec![0, 0x53, 0x49, 0x4d, 0x55, 0x4c, 0x41, 0x54, 0x45, 0x44],
        };
        assert(p@ =~= seq![0u8] + self.body());
        p
    }
}

/// A simulated pair of glasses, as a value.
pub struct Glasses<J> {
    /// The head movement.
    pub trajectory: J,
    /// What the driver can observe.
    pub state: DeviceState,
    /// The MsgID under which the panel is switched to another mode, if it can be.
    pub setter: Option<u16>,
    /// Samples emitted so far.
    pub tick: u32,
    /// Commands that are still to be answered, in order, each with its answer.
    pub replies: Seq<(u16, Answer)>,
    /// Whether the stream has stopped.
    pub stalled: bool,
    /// Every command the driver sent.
    pub sent: Seq<(u16, Seq<u8>)>,
}

/// The rate that a byte of an IMU command sets.
pub open spec fn commanded_rate(code: u8) -> Rate {
    match code {
        0 => Rate::Hz60,
        1 => Rate::Hz90,
        3 => Rate::Hz240,
        _ => Rate::Hz120,
    }
}

/// The device's state after a command.
pub open spec fn commanded_state(
    state: DeviceState,
    setter: Option<u16>,
    msg_id: u16,
    payload: Seq<u8>,
) -> DeviceState {
    if msg_id == msg::IMU_CTRL {
        if payload.len() >= 2 {
            DeviceState {
                streams: Streams(payload[0]),
                rate: commanded_rate(payload[1]),
                ..state
            }
        } else {
            state
        }
    } else if setter == Some(msg_id) && payload.len() > 0 {
        DeviceState { display_mode: payload[0], ..state }
    } else {
        state
    }
}

/// How a command is answered. Unknown commands are acknowledged rather than ignored.
pub open spec fn answer_to(state: DeviceState, setter: Option<u16>, msg_id: u16) -> Answer {
    if msg_id == msg::IMU_CTRL || setter == Some(msg_id) {
        Answer::Done
    } else if msg_id == msg::DISPLAY_MODE {
        Answer::Value(state.display_mode)
    } else if msg_id == msg::BRIGHTNESS {
        Answer::Value(state.brightness)
    } else if msg_id == msg::VOLUME {
        Answer::Value(state.volume)
    } else if msg_id == msg::WEAR_STATUS {
        Answer::Value(if state.worn {
            1
        } else {
            0
        })
    } else if msg_id == msg::VERSION {
        Answer::Version
    } else if msg_id == msg::SERIAL {
        Answer::Serial
    } else {
        Answer::Done
    }
}

/// The glasses after a command: it is logged, takes its effect, and its answer is queued.
pub open spec fn commanded<J>(glasses: Glasses<J>, msg_id: u16, payload: Seq<u8>) -> Glasses<J> {
    let state = commanded_state(glasses.state, glasses.setter, msg_id, payload);
    Glasses {
        state,
        replies: glasses.replies.push((msg_id, answer_to(state, glasses.setter, msg_id))),
        sent: glasses.sent.push((msg_id, payload)),
        ..glasses
    }
}

/// The report that answers a command.
pub open spec fn reply_report(reply: (u16, Answer)) -> Seq<u8> {
    frame::frame_bytes(frame::reply_id(reply.0), seq![0u8] + reply.1.body())
}

/// The payload of a pose: a word that is zero here, the tick, and the four components.
pub open spec fn pose_payload(tick: u32, q: Seq<u32>) -> Seq<u8> {
    wire::le32_bytes(0) + wire::le32_bytes(tick) + wire::le32_bytes(q[0]) + wire::le32_bytes(q[1])
        + wire::le32_bytes(q[2]) + wire::le32_bytes(q[3])
}

/// The report that carries a pose.
pub open spec fn pose_report(tick: u32, q: Seq<u32>) -> Seq<u8> {
    frame::frame_bytes(msg::EVT_POSE, pose_payload(tick, q))
}

/// The tick after this one.
pub open spec fn next_tick(tick: u32) -> u32 {
    if tick == u32::MAX {
        0
    } else {
        (tick + 1) as u32
    }
}

/// Whether the glasses can go to `after` and report `got` when they are listened to. Replies come
/// first and jump the queue; then a pose, if poses are on and the stream has not stopped; and
/// otherwise nothing at all.
pub open spec fn reports<J: Trajectory>(
    glasses: Glasses<J>,
    after: Glasses<J>,
    got: Result<Seq<u8>, Error>,
) -> bool {
    if glasses.replies.len() > 0 {
        &&& got == Ok::<Seq<u8>, Error>(reply_report(glasses.replies[0]))
        &&& after == (Glasses { replies: glasses.replies.skip(1), ..glasses })
    } else if glasses.stalled || !glasses.state.streams.covers(Streams(0x01)) {
        &&& got == Ok::<Seq<u8>, Error>(Seq::empty())
        &&& after == glasses
    } else {
        &&& exists|q: Seq<u32>|
            {
                &&& q.len() == 4
                &&& #[trigger] glasses.trajectory.passes(glasses.tick, glasses.state.rate, q)
                &&& got == Ok::<Seq<u8>, Error>(pose_report(glasses.tick, q))
            }
        &&& after == (Glasses { tick: next_tick(glasses.tick), ..glasses })
    }
}

/// A transport that answers like the glasses do.
///
/// Time is a counter rather than a clock: `recv` advances it by one sampling interval each time it
/// produces an event, so a run is exactly reproducible.
pub struct Simulated<J: Trajectory> {
    trajectory: J,
    state: DeviceState,
    setter: Option<u16>,
    tick: u32,
    replies: Vec<(u16, Answer)>,
    stalled: bool,
    sent: Vec<(u16, Vec<u8>)>,
}

/// The commands of a log, as values.
pub open spec fn logged(sent: Seq<(u16, Vec<u8>)>) -> Seq<(u16, Seq<u8>)> {
    sent.map_values(|c: (u16, Vec<u8>)| (c.0, c.1@))
}

impl<J: Trajectory> View for Simulated<J> {
    type V = Glasses<J>;

    closed spec fn view(&self) -> Glasses<J> {
        Glasses {
            trajectory: self.trajectory,
            state: self.state,
            setter: self.setter,
            tick: self.tick,
            replies: self.replies@,
            stalled: self.stalled,
            sent: logged(self.sent@),
        }
    }
}

impl<J: Trajectory> Simulated<J> {
    /// Glasses on a moving head.
    pub fn new(trajectory: J) -> (s: Simulated<J>)
        ensures
            s@ == (Glasses {
                trajectory,
                state: initial_state(),
                setter: None,
                tick: 0,
                replies: Seq::empty(),
                stalled: false,
                sent: Seq::empty(),
            }),
    {
        let s = Simulated {
            trajectory,
            state: DeviceState::default(),
            setter: None,
            tick: 0,
            replies: Vec::new(),
            stalled: false,
            sent: Vec::new(),
        };
        assert(logged(s.sent@) =~= Seq::empty());
        s
    }

    /// What the driver can observe.
    pub fn state(&self) -> (state: DeviceState)
        ensures
            state == self@.state,
    {
        self.state
    }

    /// Every command the driver sent.
    pub fn log(&self) -> (log: &Vec<(u16, Vec<u8>)>)
        ensures
            logged(log@) == self@.sent,
    {
        &self.sent
    }

    /// Samples emitted so far.
    pub fn ticks(&self) -> (tick: u32)
        ensures
            tick == self@.tick,
    {
        self.tick
    }

    /// The mode the panel is in when the driver comes along.
    pub fn set_display_mode(&mut self, mode: u8)
        ensures
            final(self)@ == (Glasses {
                state: DeviceState { display_mode: mode, ..old(self)@.state },
                ..old(self)@
            }),
    {
        self.state.display_mode = mode;
    }

    /// Makes the panel switch its mode when a command comes in under `setter`.
    pub fn take_display_mode_under(&mut self, setter: u16)
        ensures
            final(self)@ == (Glasses { setter: Some(setter), ..old(self)@ }),
    {
        self.setter = Some(setter);
    }

    /// Stops producing events without disconnecting: a stream that has died while the device still
    /// answers commands.
    pub fn stall(&mut self, stalled: bool)
        ensures
            final(self)@ == (Glasses { stalled, ..old(self)@ }),
    {
        self.stalled = stalled;
    }

    fn answer(&self, msg_id: u16) -> (answer: Answer)
        ensures
            answer == answer_to(self@.state, self@.setter, msg_id),
    {
        if msg_id == msg::IMU_CTRL {
            return Answer::Done;
        }
        if let Some(setter) = self.setter {
            if setter == msg_id {
                return Answer::Done;
            }
        }
        if msg_id == msg::DISPLAY_MODE {
            Answer::Value(self.state.display_mode)
        } else if msg_id == msg::BRIGHTNESS {
            Answer::Value(self.state.brightness)
        } else if msg_id == msg::VOLUME {
            Answer::Value(self.state.volume)
        } else if msg_id == msg::WEAR_STATUS {
            Answer::Value(
                if self.state.worn {
                    1
                } else {
                    0
                },
            )
        } else if msg_id == msg::VERSION {
            Answer::Version
        } else if msg_id == msg::SERIAL {
            Answer::Serial
        } else {
            Answer::Done
        }
    }
}

impl Simulated<Still> {
    /// A still head, which is what most command-path tests want.
    pub fn still() -> (s: Simulated<Still>)
        ensures
            s@.trajectory.0@ == seq![ONE, 0, 0, 0],
            s@ == (Glasses {
                trajectory: s@.trajectory,
                state: initial_state(),
                setter: None,
                tick: 0,
                replies: Seq::empty(),
                stalled: false,
                sent: Seq::empty(),
            }),
    {
        Simulated::new(Still::default())
    }
}

impl<J: Trajectory> Transport for Simulated<J> {
    open spec fn sends(self, frame: Seq<u8>, after: Self, failure: Option<Error>) -> bool {
        match frame::parsed(frame) {
            Err(e) => failure == Some(e) && after@ == self@,
            Ok((msg_id, payload)) => failure is None && after@ == commanded(self@, msg_id, payload),
        }
    }

    open spec fn receives(self, timeout_ns: u64, after: Self, got: Result<Seq<u8>, Error>) -> bool {
        reports(self@, after@, got)
    }

    fn send(&mut self, frame: &[u8]) -> (r: Result<(), Error>) {
        let command = match parse(frame) {
            Ok(command) => command,
            Err(e) => {
                return Err(e);
            },
        };
        let ghost before = self@;
        let payload = command.payload;
        self.sent.push((command.msg_id, vstd::slice::slice_to_vec(payload)));
        proof {
            assert(logged(self.sent@) =~= before.sent.push(command@));
        }
        if command.msg_id == msg::IMU_CTRL {
            // Payload is the stream bitmask then the rate.
            if payload.len() >= 2 {
                self.state.streams = Streams(payload[0]);
                self.state.rate =
                match payload[1] {
                    0 => Rate::Hz60,
                    1 => Rate::Hz90,
                    3 => Rate::Hz240,
                    _ => Rate::Hz120,
                };
            }
        } else if let Some(setter) = self.setter {
            if setter == command.msg_id && payload.len() > 0 {
                self.state.display_mode = payload[0];
            }
        }
        let answer = self.answer(command.msg_id);
        self.replies.push((command.msg_id, answer));
        Ok(())
    }

    fn recv(&mut self, buf: &mut [u8; FRAME_MAX], timeout_ns: u64) -> (r: Result<usize, Error>) {
        // Replies come first and jump the queue, exactly as they do on the wire.
        if self.replies.len() > 0 {
            let ghost before = self@;
            let (msg_id, answer) = self.replies.remove(0);
            assert(self.replies@ =~= before.replies.skip(1));
            let payload = answer.payload();
            return match build(buf, msg_id.wrapping_add(RESPONSE_OFFSET), payload.as_slice()) {
                Ok(report) => {
                    let n: usize = report.len();
                    assert(buf@.take(n as int) =~= reply_report(before.replies[0]));
                    Ok(n)
                },
                Err(e) => Err(e),
            };
        }
        if self.stalled || !self.state.streams.has(Streams::pose()) {
            // Nothing to say. A real transport would block until the timeout; returning zero is
            // the same outcome without the wait.
            assert(buf@.take(0) =~= Seq::<u8>::empty());
            return Ok(0);
        }
        let q: [u32; 4] = self.trajectory.at(self.tick, self.state.rate);
        let mut payload: Vec<u8> = Vec::new();
        wire::push_u32(&mut payload, 0);
        wire::push_u32(&mut payload, self.tick);
        wire::push_u32(&mut payload, q[0]);
        wire::push_u32(&mut payload, q[1]);
        wire::push_u32(&mut payload, q[2]);
        wire::push_u32(&mut payload, q[3]);
        assert(payload@ =~= pose_payload(self.tick, q@));
        let ghost tick = self.tick;
        self.tick = self.tick.wrapping_add(1);
        match build(buf, msg::EVT_POSE, payload.as_slice()) {
            Ok(report) => {
                let n: usize = report.len();
                assert(buf@.take(n as int) =~= pose_report(tick, q@));
                Ok(n)
            },
            Err(e) => Err(e),
        }
    }
}

/// The error of a device that is gone.
pub const ENODEV: i32 = 19;

/// Glasses that have been unplugged, so the driver's failure paths are exercised too.
pub struct Failing;

impl Transport for Failing {
    open spec fn sends(self, frame: Seq<u8>, after: Self, failure: Option<Error>) -> bool {
        failure == Some(Error::Io(Some(ENODEV)))
    }

    open spec fn receives(self, timeout_ns: u64, after: Self, got: Result<Seq<u8>, Error>) -> bool {
        got == Err::<Seq<u8>, Error>(Error::Io(Some(ENODEV)))
    }

    fn send(&mut self, frame: &[u8]) -> (r: Result<(), Error>) {
        Err(Error::Io(Some(ENODEV)))
    }

    fn recv(&mut self, buf: &mut [u8; FRAME_MAX], timeout_ns: u64) -> (r: Result<usize, Error>) {
        Err(Error::Io(Some(ENODEV)))
    }
}

/// The orientations the driver sees after `samples` events, from a trajectory alone.
pub fn expected_poses<J: Trajectory>(trajectory: &J, rate: Rate, samples: u32) -> (poses: Vec<
    [u32; 4],
>)
    ensures
        poses@.len() == samples,
        forall|i: int|
            0 <= i < samples ==> trajectory.passes(i as u32, rate, (#[trigger] poses@[i])@),
{
    let mut poses: Vec<[u32; 4]> = Vec::new();
    let mut i: u32 = 0;
    while i < samples
        invariant
            i <= samples,
            poses@.len() == i,
            forall|k: int| 0 <= k < i ==> trajectory.passes(k as u32, rate, (#[trigger] poses@[k])@),
        decreases samples - i,
    {
        let q: [u32; 4] = trajectory.at(i, rate);
        poses.push(q);
        i += 1;
    }
    poses
}

/// The glasses are silent until a stream is started: listening to them delivers nothing and changes
/// nothing.
pub proof fn silent_until_started<J: Trajectory>(
    glasses: Glasses<J>,
    after: Glasses<J>,
    got: Result<Seq<u8>, Error>,
)
    requires
        glasses.state.streams == Streams(0x00),
        glasses.replies.len() == 0,
        reports(glasses, after, got),
    ensures
        got == Ok::<Seq<u8>, Error>(Seq::empty()),
        after == glasses,
{
    assert(0u8 & 1u8 != 1u8) by (bit_vector);
}

/// A stream that has stopped looks like silence and not like a broken link, while commands are
/// still answered.
pub proof fn a_stalled_stream_is_quiet<J: Trajectory>(
    glasses: Glasses<J>,
    after: Glasses<J>,
    got: Result<Seq<u8>, Error>,
)
    requires
        glasses.stalled,
        reports(glasses, after, got),
    ensures
        got is Ok,
        glasses.replies.len() == 0 ==> got == Ok::<Seq<u8>, Error>(Seq::empty()) && after == glasses,
        glasses.replies.len() > 0 ==> got == Ok::<Seq<u8>, Error>(
            reply_report(glasses.replies[0]),
        ),
{
}

/// A command is answered before the next sample, and the driver reads the answer off the report.
pub proof fn a_command_is_answered_first<J: Trajectory>(
    glasses: Glasses<J>,
    msg_id: u16,
    payload: Seq<u8>,
    after: Glasses<J>,
    got: Result<Seq<u8>, Error>,
)
    requires
        glasses.replies.len() == 0,
        reports(commanded(glasses, msg_id, payload), after, got),
    ensures
        ({
            let now = commanded(glasses, msg_id, payload);
            let answer = answer_to(now.state, now.setter, msg_id);
            &&& reply_in_report(msg_id, got) == Some(Ok::<Seq<u8>, Error>(answer.body()))
            &&& after == (Glasses { replies: Seq::empty(), ..now })
        }),
{
    let now = commanded(glasses, msg_id, payload);
    let answer = answer_to(now.state, now.setter, msg_id);
    assert(now.replies.skip(1) =~= Seq::empty());
    let report = reply_report((msg_id, answer));
    assert(report + Seq::<u8>::empty() =~= report);
    crate::device::a_reply_gives_its_body(
        frame::reply_id(msg_id),
        answer.body(),
        Seq::<u8>::empty(),
    );
}

/// What a delivery means to a request under this MsgID.
pub open spec fn reply_in_report(msg_id: u16, got: Result<Seq<u8>, Error>) -> Option<
    Result<Seq<u8>, Error>,
> {
    crate::device::reply_in(frame::reply_id(msg_id), got)
}

/// A request to the simulated glasses comes out as their answer, or its time runs out; it cannot
/// come out as anything else.
pub proof fn a_request_comes_out_as_the_answer<J: Trajectory>(
    before: Simulated<J>,
    after: Simulated<J>,
    msg_id: u16,
    payload: Seq<u8>,
    capacity: nat,
    timeout_ns: u64,
    outcome: Result<Seq<u8>, Error>,
)
    requires
        before@.replies.len() == 0,
        frame::HEADER_LEN + payload.len() <= FRAME_MAX,
        crate::device::exchanges(before, after, msg_id, payload, capacity, timeout_ns, outcome),
    ensures
        ({
            let now = commanded(before@, msg_id, payload);
            let answer = answer_to(now.state, now.setter, msg_id);
            ||| outcome == Err::<Seq<u8>, Error>(Error::Timeout)
            ||| outcome == crate::device::fitted(Ok(answer.body()), capacity) && after@ == (
                Glasses { replies: Seq::empty(), ..now })
        }),
{
    let frame = frame::frame_bytes(msg_id, payload);
    let want = frame::reply_id(msg_id);
    let (start, run) = choose|
        start: std::time::Instant,
        run: Seq<crate::device::Receipt<Simulated<J>>>,
    |
        #[trigger] crate::device::is_exchange(
            before,
            start,
            run,
            frame,
            want,
            capacity,
            timeout_ns,
            outcome,
        ) && after == run.last().link;
    frame::a_built_frame_reads_back(msg_id, payload, Seq::empty());
    assert(frame + Seq::<u8>::empty() =~= frame);
    let now = commanded(before@, msg_id, payload);
    assert(run[0].link@ == now);
    if run.len() > 1 {
        assert(crate::device::is_receive(start, run, 1, timeout_ns));
        assert(reports(now, run[1].link@, run[1].got));
        a_command_is_answered_first(before@, msg_id, payload, run[1].link@, run[1].got);
        if run.len() > 2 {
            assert(crate::device::reply_in(want, run[1].got) is None);
        }
    }
}

/// Listening to the glasses changes neither their state nor what they were sent.
pub proof fn listening_changes_nothing<J: Trajectory>(
    glasses: Glasses<J>,
    after: Glasses<J>,
    got: Result<Seq<u8>, Error>,
)
    requires
        reports(glasses, after, got),
    ensures
        after.state == glasses.state,
        after.setter == glasses.setter,
        after.sent == glasses.sent,
{
}

/// A request takes its effect whatever it comes out as, even where its time runs out before the
/// answer is read: the command is logged, and the device is in the state the command asks for.
pub proof fn a_request_takes_its_effect<J: Trajectory>(
    before: Simulated<J>,
    after: Simulated<J>,
    msg_id: u16,
    payload: Seq<u8>,
    capacity: nat,
    timeout_ns: u64,
    outcome: Result<Seq<u8>, Error>,
)
    requires
        frame::HEADER_LEN + payload.len() <= FRAME_MAX,
        crate::device::exchanges(before, after, msg_id, payload, capacity, timeout_ns, outcome),
    ensures
        after@.state == commanded_state(before@.state, before@.setter, msg_id, payload),
        after@.setter == before@.setter,
        after@.sent == before@.sent.push((msg_id, payload)),
{
    let frame = frame::frame_bytes(msg_id, payload);
    let want = frame::reply_id(msg_id);
    let (start, run) = choose|
        start: std::time::Instant,
        run: Seq<crate::device::Receipt<Simulated<J>>>,
    |
        #[trigger] crate::device::is_exchange(
            before,
            start,
            run,
            frame,
            want,
            capacity,
            timeout_ns,
            outcome,
        ) && after == run.last().link;
    frame::a_built_frame_reads_back(msg_id, payload, Seq::empty());
    assert(frame + Seq::<u8>::empty() =~= frame);
    assert(run[0].link@ == commanded(before@, msg_id, payload));
    receiving_changes_nothing(start, run, run.len() - 1, timeout_ns);
}

proof fn receiving_changes_nothing<J: Trajectory>(
    start: std::time::Instant,
    run: Seq<crate::device::Receipt<Simulated<J>>>,
    k: int,
    timeout_ns: u64,
)
    requires
        0 <= k < run.len(),
        forall|j: int|
            1 <= j < run.len() ==> #[trigger] crate::device::is_receive(start, run, j, timeout_ns),
    ensures
        run[k].link@.state == run[0].link@.state,
        run[k].link@.setter == run[0].link@.setter,
        run[k].link@.sent == run[0].link@.sent,
    decreases k,
{
    if k > 0 {
        receiving_changes_nothing(start, run, k - 1, timeout_ns);
        assert(crate::device::is_receive(start, run, k, timeout_ns));
        listening_changes_nothing(run[k - 1].link@, run[k].link@, run[k].got);
    }
}

/// A sample reaches the driver whole: the report reads as a pose with the tick it was taken at and
/// an orientation the head can have then, bit for bit.
pub proof fn a_sample_reaches_the_driver<J: Trajectory>(
    glasses: Glasses<J>,
    after: Glasses<J>,
    got: Result<Seq<u8>, Error>,
    read: Result<Option<frame::Event>, Error>,
)
    requires
        glasses.replies.len() == 0,
        !glasses.stalled,
        glasses.state.streams.covers(Streams(0x01)),
        reports(glasses, after, got),
        got is Ok ==> frame::reads_as_event(got->Ok_0, read),
    ensures
        read matches Ok(Some(frame::Event::Pose(pose))) && pose.tick == glasses.tick
            && glasses.trajectory.passes(glasses.tick, glasses.state.rate, pose.q@),
        after.tick == next_tick(glasses.tick),
{
    let q = choose|q: Seq<u32>|
        {
            &&& q.len() == 4
            &&& #[trigger] glasses.trajectory.passes(glasses.tick, glasses.state.rate, q)
            &&& got == Ok::<Seq<u8>, Error>(pose_report(glasses.tick, q))
        };
    let payload = pose_payload(glasses.tick, q);
    let report = got->Ok_0;
    assert(report + Seq::<u8>::empty() =~= report);
    frame::a_built_frame_reads_back(msg::EVT_POSE, payload, Seq::empty());
    wire::le32_round_trips(glasses.tick);
    wire::le32_round_trips(q[0]);
    wire::le32_round_trips(q[1]);
    wire::le32_round_trips(q[2]);
    wire::le32_round_trips(q[3]);
    assert(wire::le32_at(payload, 4) == glasses.tick);
    assert(wire::le32_at(payload, 8) == q[0]);
    assert(wire::le32_at(payload, 12) == q[1]);
    assert(wire::le32_at(payload, 16) == q[2]);
    assert(wire::le32_at(payload, 20) == q[3]);
    let pose = read->Ok_0->Some_0->Pose_0;
    assert forall|k: int| 0 <= k < 4 implies pose.q@[k] == q[k] by {
        assert(pose.q@[k] == wire::le32_at(payload, 8 + 4 * k));
    }
    assert(pose.q@ =~= q);
}

/// Starting the streams reaches the device: it runs the streams that were asked for, at the rate
/// that was asked for where it is one that poses come at.
pub proof fn starting_the_imu_reaches_the_device<J: Trajectory>(
    glasses: Glasses<J>,
    streams: Streams,
    rate: Rate,
)
    ensures
        ({
            let state = commanded(
                glasses,
                msg::IMU_CTRL,
                crate::device::imu_payload(streams, rate),
            ).state;
            &&& state.streams == streams
            &&& state.rate == (if rate.per_second() <= 240 {
                rate
            } else {
                Rate::Hz120
            })
            &&& state == (DeviceState { streams: state.streams, rate: state.rate, ..glasses.state })
        }),
{
}

/// A mode the panel was switched to is the mode it reports from then on.
pub proof fn a_mode_change_reads_back<J: Trajectory>(
    glasses: Glasses<J>,
    setter: u16,
    mode: u8,
    rest: Seq<u8>,
)
    requires
        glasses.setter == Some(setter),
        setter != msg::IMU_CTRL,
        setter != msg::DISPLAY_MODE,
    ensures
        ({
            let now = commanded(glasses, setter, seq![mode] + rest);
            &&& now.state == (DeviceState { display_mode: mode, ..glasses.state })
            &&& answer_to(now.state, now.setter, msg::DISPLAY_MODE) == Answer::Value(mode)
        }),
{
}

/// A query changes nothing about the device.
pub proof fn a_query_changes_nothing<J: Trajectory>(
    glasses: Glasses<J>,
    msg_id: u16,
    payload: Seq<u8>,
)
    requires
        msg_id != msg::IMU_CTRL,
        glasses.setter != Some(msg_id),
    ensures
        commanded(glasses, msg_id, payload).state == glasses.state,
{
}

/// A device that is gone reports an error rather than hanging.
pub proof fn an_unplugged_device_fails_at_once(
    before: Failing,
    after: Failing,
    msg_id: u16,
    payload: Seq<u8>,
    capacity: nat,
    timeout_ns: u64,
    outcome: Result<Seq<u8>, Error>,
)
    requires
        frame::HEADER_LEN + payload.len() <= FRAME_MAX,
        crate::device::exchanges(before, after, msg_id, payload, capacity, timeout_ns, outcome),
    ensures
        outcome == Err::<Seq<u8>, Error>(Error::Io(Some(ENODEV))),
{
}

/// Commands are answered in the order they came in: the answer to the first comes back first, and it
/// is the one that held when the command was taken, whatever the second has changed since.
pub proof fn answers_come_in_the_order_of_the_commands<J: Trajectory>(
    glasses: Glasses<J>,
    first: (u16, Seq<u8>),
    second: (u16, Seq<u8>),
    between: Glasses<J>,
    got: Result<Seq<u8>, Error>,
    after: Glasses<J>,
    then_got: Result<Seq<u8>, Error>,
)
    requires
        glasses.replies.len() == 0,
        reports(
            commanded(commanded(glasses, first.0, first.1), second.0, second.1),
            between,
            got,
        ),
        reports(between, after, then_got),
    ensures
        ({
            let once = commanded(glasses, first.0, first.1);
            let twice = commanded(once, second.0, second.1);
            &&& reply_in_report(first.0, got) == Some(
                Ok::<Seq<u8>, Error>(answer_to(once.state, once.setter, first.0).body()),
            )
            &&& reply_in_report(second.0, then_got) == Some(
                Ok::<Seq<u8>, Error>(answer_to(twice.state, twice.setter, second.0).body()),
            )
            &&& after.replies.len() == 0
        }),
{
    let once = commanded(glasses, first.0, first.1);
    let twice = commanded(once, second.0, second.1);
    let answer = answer_to(once.state, once.setter, first.0);
    let last = answer_to(twice.state, twice.setter, second.0);
    assert(twice.replies[0] == (first.0, answer));
    assert(between.replies[0] == (second.0, last));
    let report = reply_report((first.0, answer));
    assert(report + Seq::<u8>::empty() =~= report);
    crate::device::a_reply_gives_its_body(frame::reply_id(first.0), answer.body(), Seq::empty());
    let report = reply_report((second.0, last));
    assert(report + Seq::<u8>::empty() =~= report);
    crate::device::a_reply_gives_its_body(frame::reply_id(second.0), last.body(), Seq::empty());
}

/// Glasses answer a query with what they are: the mode of the panel, the brightness, the volume,
/// whether they are worn, and what they call themselves. A command they do not know is taken and
/// answered with nothing.
pub proof fn a_query_is_answered_with_the_state(state: DeviceState, other: u16)
    ensures
        answer_to(state, None, 0x3141).body() == seq![state.display_mode],
        answer_to(state, None, 0x3122).body() == seq![state.brightness],
        answer_to(state, None, 0x3201).body() == seq![state.volume],
        answer_to(state, None, 0x3321).body().len() == 1,
        answer_to(state, None, 0x3321).body()[0] != 0 <==> state.worn,
        answer_to(state, None, 0x3003).body() == crate::text::ascii("SIM-1.0.0"),
        answer_to(state, None, 0x3002).body() == crate::text::ascii("SIMULATED"),
        other != 0x3141 && other != 0x3122 && other != 0x3201 && other != 0x3321 && other != 0x3003
            && other != 0x3002 ==> answer_to(state, None, other).body().len() == 0,
{
    reveal_strlit("SIM-1.0.0");
    reveal_strlit("SIMULATED");
    assert(answer_to(state, None, 0x3003).body() =~= crate::text::ascii("SIM-1.0.0"));
    assert(answer_to(state, None, 0x3002).body() =~= crate::text::ascii("SIMULATED"));
}

/// Poses come only where the lowest bit of the streams is set: any other streams are silent. Each
/// sample is counted once, modulo the size of the counter, and an answer is no sample.
pub proof fn only_samples_are_counted<J: Trajectory>(
    glasses: Glasses<J>,
    after: Glasses<J>,
    got: Result<Seq<u8>, Error>,
)
    requires
        reports(glasses, after, got),
    ensures
        glasses.state.streams.0 % 2 == 0 && glasses.replies.len() == 0 ==> got == Ok::<
            Seq<u8>,
            Error,
        >(Seq::empty()),
        ({
            let sampled = glasses.replies.len() == 0 && !glasses.stalled && glasses.state.streams.0
                % 2 == 1;
            &&& sampled ==> after.tick as int == (glasses.tick as int + 1) % 0x1_0000_0000
            &&& !sampled ==> after.tick == glasses.tick
        }),
        after.stalled == glasses.stalled,
        after.trajectory == glasses.trajectory,
{
    let bits = glasses.state.streams.0;
    assert(bits & 1u8 == 1u8 <==> bits % 2 == 1) by (bit_vector);
}

/// A still head is where it was put, whenever it is asked.
pub proof fn a_still_head_does_not_move(
    head: Still,
    first: (u32, Rate, Seq<u32>),
    second: (u32, Rate, Seq<u32>),
)
    requires
        head.passes(first.0, first.1, first.2),
        head.passes(second.0, second.1, second.2),
    ensures
        first.2 == second.2,
        first.2 == head.0@,
{
}

} // verus!
